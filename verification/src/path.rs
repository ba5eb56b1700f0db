//! Paths, as Unix and as Windows write them.

use vstd::prelude::*;

verus! {

pub const SLASH: u8 = 47;

pub const BACKSLASH: u8 = 92;

pub const DOT: u8 = 46;

pub const COLON: u8 = 58;

pub const QUESTION: u8 = 63;

/// How a system writes paths.
#[derive(Clone, Copy, Debug, Eq, PartialEq, Structural)]
pub enum Syntax {
    /// With `/` between components.
    Unix,
    /// With `\` or `/` between components, and a prefix such as `C:` before them.
    Windows,
}

/// A path.
#[derive(Debug)]
pub struct SystemPath {
    /// How it is written.
    pub syntax: Syntax,
    /// Its bytes; on Windows the encoding of the system's 16-bit units that extends
    /// UTF-8 to single surrogates.
    pub bytes: Vec<u8>,
}

/// What a [`SystemPath`] is.
pub struct PathView {
    pub syntax: Syntax,
    pub bytes: Seq<u8>,
}

impl View for SystemPath {
    type V = PathView;

    open spec fn view(&self) -> PathView {
        PathView { syntax: self.syntax, bytes: self.bytes@ }
    }
}

/// What some paths are.
pub open spec fn all_paths(paths: Seq<SystemPath>) -> Seq<PathView> {
    Seq::new(paths.len(), |i: int| paths[i]@)
}

/// Which bytes stand between components.
#[derive(Clone, Copy, Debug, Eq, PartialEq, Structural)]
pub enum Separators {
    Slash,
    Backslash,
    Both,
}

/// Whether `byte` stands between components.
pub open spec fn separates(separators: Separators, byte: u8) -> bool {
    match separators {
        Separators::Slash => byte == SLASH,
        Separators::Backslash => byte == BACKSLASH,
        Separators::Both => byte == SLASH || byte == BACKSLASH,
    }
}

/// Whether `byte` stands between components.
fn is_separator(separators: Separators, byte: u8) -> (is: bool)
    ensures
        is == separates(separators, byte),
{
    match separators {
        Separators::Slash => byte == SLASH,
        Separators::Backslash => byte == BACKSLASH,
        Separators::Both => byte == SLASH || byte == BACKSLASH,
    }
}

/// The bytes that stand between components in ordinary paths.
pub open spec fn separators_in(syntax: Syntax) -> Separators {
    match syntax {
        Syntax::Unix => Separators::Slash,
        Syntax::Windows => Separators::Both,
    }
}

/// What a Windows path can begin with.
#[derive(Debug)]
pub enum Prefix<P> {
    /// `\\?\name`
    Verbatim(P),
    /// `\\?\UNC\server\share`
    VerbatimUnc { server: P, share: P },
    /// `\\?\C:`
    VerbatimDisk(u8),
    /// `\\.\name`
    Device(P),
    /// `\\server\share`
    Unc { server: P, share: P },
    /// `C:`
    Disk(u8),
}

/// What a prefix is.
pub open spec fn prefix_view(prefix: Prefix<Vec<u8>>) -> Prefix<Seq<u8>> {
    match prefix {
        Prefix::Verbatim(name) => Prefix::Verbatim(name@),
        Prefix::VerbatimUnc { server, share } => Prefix::VerbatimUnc {
            server: server@,
            share: share@,
        },
        Prefix::VerbatimDisk(drive) => Prefix::VerbatimDisk(drive),
        Prefix::Device(name) => Prefix::Device(name@),
        Prefix::Unc { server, share } => Prefix::Unc { server: server@, share: share@ },
        Prefix::Disk(drive) => Prefix::Disk(drive),
    }
}

/// Whether what follows a prefix is taken as it is: only `\` stands between
/// components, and `.` is one.
pub open spec fn is_verbatim(prefix: Prefix<Seq<u8>>) -> bool {
    prefix is Verbatim || prefix is VerbatimUnc || prefix is VerbatimDisk
}

/// The length of a share and of the separator before it; nothing where there is
/// no share.
pub open spec fn share_len(share: Seq<u8>) -> nat {
    if share.len() > 0 {
        share.len() + 1
    } else {
        0
    }
}

/// The number of bytes of a prefix.
pub open spec fn prefix_len(prefix: Prefix<Seq<u8>>) -> nat {
    match prefix {
        Prefix::Verbatim(name) => 4 + name.len(),
        Prefix::VerbatimUnc { server, share } => 8 + server.len() + share_len(share),
        Prefix::VerbatimDisk(_) => 6,
        Prefix::Device(name) => 4 + name.len(),
        Prefix::Unc { server, share } => 2 + server.len() + share_len(share),
        Prefix::Disk(_) => 2,
    }
}

/// What stands before the first separator.
pub open spec fn before_separator(separators: Separators, text: Seq<u8>) -> Seq<u8>
    decreases text.len(),
{
    if text.len() == 0 || separates(separators, text[0]) {
        Seq::empty()
    } else {
        seq![text[0]] + before_separator(separators, text.skip(1))
    }
}

/// What stands after the first separator.
pub open spec fn after_separator(separators: Separators, text: Seq<u8>) -> Seq<u8> {
    let n = before_separator(separators, text).len() as int;
    if n < text.len() {
        text.skip(n + 1)
    } else {
        Seq::empty()
    }
}

/// Whether `byte` is a letter.
pub open spec fn is_drive_letter(byte: u8) -> bool {
    65 <= byte <= 90 || 97 <= byte <= 122
}

/// A letter in upper case.
pub open spec fn upper_case(letter: u8) -> u8 {
    if letter >= 97 {
        (letter - 32) as u8
    } else {
        letter
    }
}

/// Whether `text` begins with a drive.
pub open spec fn begins_with_drive(text: Seq<u8>) -> bool {
    text.len() >= 2 && is_drive_letter(text[0]) && text[1] == COLON
}

/// Whether `text` begins with two separators.
pub open spec fn begins_with_two(text: Seq<u8>) -> bool {
    text.len() >= 2 && separates(Separators::Both, text[0]) && separates(
        Separators::Both,
        text[1],
    )
}

/// Whether `text` begins with `\\?\`.
pub open spec fn begins_verbatim(text: Seq<u8>) -> bool {
    text.len() >= 4 && text[0] == BACKSLASH && text[1] == BACKSLASH && text[2] == QUESTION
        && text[3] == BACKSLASH
}

/// Whether `text` begins with `UNC` and a separator.
pub open spec fn begins_with_unc(text: Seq<u8>) -> bool {
    text.len() >= 4 && text[0] == 85 && text[1] == 78 && text[2] == 67 && separates(
        Separators::Both,
        text[3],
    )
}

/// The prefix of a Windows path.
pub open spec fn windows_prefix(path: Seq<u8>) -> Option<Prefix<Seq<u8>>> {
    if begins_verbatim(path) {
        let rest = path.skip(4);
        if begins_with_unc(rest) {
            let names = path.skip(8);
            Some(
                Prefix::VerbatimUnc {
                    server: before_separator(Separators::Backslash, names),
                    share: before_separator(
                        Separators::Backslash,
                        after_separator(Separators::Backslash, names),
                    ),
                },
            )
        } else if begins_with_drive(rest) && (rest.len() == 2 || separates(
            Separators::Both,
            rest[2],
        )) {
            Some(Prefix::VerbatimDisk(upper_case(rest[0])))
        } else {
            Some(Prefix::Verbatim(before_separator(Separators::Backslash, rest)))
        }
    } else if begins_with_two(path) {
        if path.len() >= 4 && path[2] == DOT && separates(Separators::Both, path[3]) {
            Some(Prefix::Device(before_separator(Separators::Both, path.skip(4))))
        } else {
            let names = path.skip(2);
            let server = before_separator(Separators::Both, names);
            let share = before_separator(
                Separators::Both,
                after_separator(Separators::Both, names),
            );
            if server.len() > 0 && share.len() > 0 {
                Some(Prefix::Unc { server, share })
            } else {
                None
            }
        }
    } else if begins_with_drive(path) {
        Some(Prefix::Disk(upper_case(path[0])))
    } else {
        None
    }
}

/// The prefix of a path.
pub open spec fn prefix_of(path: PathView) -> Option<Prefix<Seq<u8>>> {
    match path.syntax {
        Syntax::Unix => None,
        Syntax::Windows => windows_prefix(path.bytes),
    }
}

/// One component of a path.
#[derive(Debug)]
pub enum Component {
    /// What a Windows path can begin with.
    Prefix(Prefix<Vec<u8>>),
    /// The separator that an absolute path begins with.
    Root,
    /// A `.` at the beginning of a relative path, or anywhere in a verbatim one.
    Current,
    /// `..`
    Parent,
    /// A name.
    Normal(Vec<u8>),
}

/// What a [`Component`] is.
pub enum ComponentView {
    Prefix(Prefix<Seq<u8>>),
    Root,
    Current,
    Parent,
    Normal(Seq<u8>),
}

impl View for Component {
    type V = ComponentView;

    open spec fn view(&self) -> ComponentView {
        match self {
            Component::Prefix(prefix) => ComponentView::Prefix(prefix_view(*prefix)),
            Component::Root => ComponentView::Root,
            Component::Current => ComponentView::Current,
            Component::Parent => ComponentView::Parent,
            Component::Normal(name) => ComponentView::Normal(name@),
        }
    }
}

/// The parts of `text` between its separators: one more than there are separators.
pub open spec fn pieces(separators: Separators, text: Seq<u8>) -> Seq<Seq<u8>>
    decreases text.len(),
{
    if text.len() == 0 {
        seq![Seq::empty()]
    } else {
        let before = pieces(separators, text.drop_last());
        if separates(separators, text.last()) {
            before.push(Seq::empty())
        } else {
            before.drop_last().push(before.last().push(text.last()))
        }
    }
}

/// The component that a piece of a path stands for. Empty pieces stand for none,
/// nor does `.` unless the path is verbatim.
pub open spec fn piece_component(verbatim: bool, piece: Seq<u8>) -> Seq<ComponentView> {
    if piece == Seq::<u8>::empty() {
        Seq::empty()
    } else if piece == seq![DOT] {
        if verbatim {
            seq![ComponentView::Current]
        } else {
            Seq::empty()
        }
    } else if piece == seq![DOT, DOT] {
        seq![ComponentView::Parent]
    } else {
        seq![ComponentView::Normal(piece)]
    }
}

/// The components that some pieces stand for.
pub open spec fn piece_components(verbatim: bool, pieces: Seq<Seq<u8>>) -> Seq<ComponentView>
    decreases pieces.len(),
{
    if pieces.len() == 0 {
        Seq::empty()
    } else {
        piece_components(verbatim, pieces.drop_last()) + piece_component(verbatim, pieces.last())
    }
}

/// Whether a path begins with its root, after its prefix.
pub open spec fn has_root(syntax: Syntax, body: Seq<u8>) -> bool {
    body.len() > 0 && separates(separators_in(syntax), body[0])
}

/// What follows the root.
pub open spec fn below_root(syntax: Syntax, body: Seq<u8>) -> Seq<u8> {
    if has_root(syntax, body) {
        body.skip(1)
    } else {
        body
    }
}

/// The component that tells an absolute path, or one that begins with `.`, from a
/// plain relative one, where there is no prefix.
pub open spec fn leading_component(syntax: Syntax, body: Seq<u8>) -> Seq<ComponentView> {
    if has_root(syntax, body) {
        seq![ComponentView::Root]
    } else if pieces(separators_in(syntax), body)[0] == seq![DOT] {
        seq![ComponentView::Current]
    } else {
        Seq::empty()
    }
}

/// A prefix and the root after it. A share and a device have a root even where
/// none is written.
pub open spec fn prefix_components(prefix: Prefix<Seq<u8>>, rooted: bool) -> Seq<ComponentView> {
    if rooted || prefix is Unc || prefix is Device {
        seq![ComponentView::Prefix(prefix), ComponentView::Root]
    } else {
        seq![ComponentView::Prefix(prefix)]
    }
}

/// The bytes that stand between components after a prefix.
pub open spec fn separators_after(prefix: Prefix<Seq<u8>>) -> Separators {
    if is_verbatim(prefix) {
        Separators::Backslash
    } else {
        Separators::Both
    }
}

/// The number of bytes of the prefix of `path`.
pub open spec fn prefix_end(path: PathView) -> nat {
    match prefix_of(path) {
        Some(prefix) => prefix_len(prefix),
        None => 0,
    }
}

/// What follows the prefix.
pub open spec fn body_of(path: PathView) -> Seq<u8> {
    path.bytes.skip(prefix_end(path) as int)
}

/// Whether a root is written after the prefix.
pub open spec fn is_rooted(path: PathView) -> bool {
    has_root(path.syntax, body_of(path))
}

/// What follows the prefix and the root.
pub open spec fn names_of(path: PathView) -> Seq<u8> {
    below_root(path.syntax, body_of(path))
}

/// Whether `path` is taken as it is.
pub open spec fn reads_verbatim(path: PathView) -> bool {
    match prefix_of(path) {
        Some(prefix) => is_verbatim(prefix),
        None => false,
    }
}

/// The bytes that stand between the names in `path`.
pub open spec fn separators_of(path: PathView) -> Separators {
    match prefix_of(path) {
        Some(prefix) => separators_after(prefix),
        None => separators_in(path.syntax),
    }
}

/// The components before the names.
pub open spec fn leading_of(path: PathView) -> Seq<ComponentView> {
    match prefix_of(path) {
        Some(prefix) => prefix_components(prefix, is_rooted(path)),
        None => leading_component(path.syntax, body_of(path)),
    }
}

/// The components that the names in `text` stand for.
pub open spec fn name_components(
    verbatim: bool,
    separators: Separators,
    text: Seq<u8>,
) -> Seq<ComponentView> {
    piece_components(verbatim, pieces(separators, text))
}

/// The components of `path`. Repeated and trailing separators do not matter, nor
/// does a `.` that is not at the beginning, unless the path is verbatim.
pub open spec fn components(path: PathView) -> Seq<ComponentView> {
    leading_of(path) + name_components(
        reads_verbatim(path),
        separators_of(path),
        names_of(path),
    )
}

/// The last component, where it is a name.
pub open spec fn file_name_of(path: PathView) -> Option<Seq<u8>> {
    let parts = components(path);
    if parts.len() > 0 {
        match parts.last() {
            ComponentView::Normal(name) => Some(name),
            _ => None,
        }
    } else {
        None
    }
}

/// Whether there is a path that `path` lies directly under.
pub open spec fn has_parent_spec(path: PathView) -> bool {
    let parts = components(path);
    parts.len() > 0 && !(parts.last() is Root || parts.last() is Prefix)
}

/// Whether `byte` is the lower-case letter `letter` or its upper case.
pub open spec fn is_letter(byte: u8, letter: u8) -> bool {
    byte == letter || byte + 32 == letter
}

/// Whether the file name has the extension `svg`, in upper or lower case, after
/// a stem of at least one byte.
pub open spec fn is_svg_spec(path: PathView) -> bool {
    match file_name_of(path) {
        Some(name) => {
            let n = name.len() as int;
            &&& n > 4
            &&& name[n - 4] == DOT
            &&& is_letter(name[n - 3], 115)
            &&& is_letter(name[n - 2], 118)
            &&& is_letter(name[n - 1], 103)
        },
        None => false,
    }
}

/// Whether `path` is `base` or lies below it.
pub open spec fn is_under(path: PathView, base: PathView) -> bool {
    let parts = components(path);
    let base_parts = components(base);
    base_parts.len() <= parts.len() && parts.take(base_parts.len() as int) == base_parts
}

/// The components of `path` below those of `base`.
pub open spec fn parts_below(path: PathView, base: PathView) -> Seq<ComponentView> {
    components(path).skip(components(base).len() as int)
}

/// What is left of `text` after the pieces of its first `n` components. It begins
/// with a component.
pub open spec fn tail_after(
    verbatim: bool,
    separators: Separators,
    text: Seq<u8>,
    n: nat,
) -> Seq<u8>
    decreases text.len(),
{
    let first = before_separator(separators, text);
    let rest = after_separator(separators, text);
    if text.len() == 0 {
        text
    } else if piece_component(verbatim, first).len() == 0 {
        tail_after(verbatim, separators, rest, n)
    } else if n == 0 {
        text
    } else {
        tail_after(verbatim, separators, rest, (n - 1) as nat)
    }
}

/// `text` without its last piece and the separator before it.
pub open spec fn without_last(separators: Separators, text: Seq<u8>) -> Seq<u8> {
    let n = text.len() - pieces(separators, text).last().len() - 1;
    if n >= 0 {
        text.take(n)
    } else {
        Seq::empty()
    }
}

/// `text` without the pieces at its end that stand for no component, but not
/// shorter than `floor`.
pub open spec fn trim_end(
    verbatim: bool,
    separators: Separators,
    text: Seq<u8>,
    floor: nat,
) -> Seq<u8>
    decreases text.len(),
{
    if text.len() > floor && piece_component(verbatim, pieces(separators, text).last()).len() == 0 {
        trim_end(verbatim, separators, without_last(separators, text), floor)
    } else {
        text
    }
}

/// The length of the `.` that the names of a path begin with, where no root
/// precedes it.
pub open spec fn dot_len(path: PathView) -> nat {
    if !is_rooted(path) && pieces(separators_of(path), names_of(path))[0] == seq![DOT] {
        1
    } else {
        0
    }
}

/// The bytes of `path` from its component `n` to the end of its last one, as they
/// are written.
pub open spec fn bytes_from(path: PathView, n: nat) -> Seq<u8> {
    let verbatim = reads_verbatim(path);
    let separators = separators_of(path);
    let names = names_of(path);
    let lead = leading_of(path).len();
    let root = body_of(path).len() - names.len();
    if n == 0 {
        path.bytes.take(prefix_end(path) + root) + trim_end(
            verbatim,
            separators,
            names,
            dot_len(path),
        )
    } else if n < lead || (n == lead && prefix_of(path) is Some && lead == 1) {
        body_of(path).take(root) + trim_end(verbatim, separators, names, dot_len(path))
    } else {
        trim_end(verbatim, separators, tail_after(verbatim, separators, names, (n - lead) as nat), 0)
    }
}

/// `path` relative to `base`, where it lies under `base`.
pub open spec fn relative_to(path: PathView, base: PathView) -> PathView {
    PathView { syntax: path.syntax, bytes: bytes_from(path, components(base).len()) }
}

/// Whether `a` and `b` hold the same bytes.
pub fn same_bytes(a: &[u8], b: &[u8]) -> (same: bool)
    ensures
        same == (a@ == b@),
{
    if a.len() != b.len() {
        return false;
    }
    for i in 0..a.len()
        invariant
            a@.len() == b@.len(),
            forall|j: int| 0 <= j < i ==> a@[j] == b@[j],
    {
        if a[i] != b[i] {
            return false;
        }
    }
    assert(a@ =~= b@);
    true
}

/// The bytes from `start` to `end`.
fn copy_range(bytes: &[u8], start: usize, end: usize) -> (result: Vec<u8>)
    requires
        start <= end <= bytes@.len(),
    ensures
        result@ == bytes@.subrange(start as int, end as int),
{
    let mut result: Vec<u8> = Vec::new();
    for i in start..end
        invariant
            start <= end <= bytes@.len(),
            result@ == bytes@.subrange(start as int, i as int),
    {
        result.push(bytes[i]);
        proof {
            assert(result@ =~= bytes@.subrange(start as int, i + 1));
        }
    }
    result
}

/// What stands before the first separator ends there, or at the end.
pub(crate) proof fn lemma_before_separator(separators: Separators, text: Seq<u8>)
    ensures
        ({
            let n = before_separator(separators, text).len() as int;
            &&& n <= text.len()
            &&& before_separator(separators, text) == text.take(n)
            &&& n < text.len() ==> separates(separators, text[n])
            &&& forall|i: int| 0 <= i < n ==> !separates(separators, #[trigger] text[i])
        }),
    decreases text.len(),
{
    let before = before_separator(separators, text);
    if text.len() == 0 || separates(separators, text[0]) {
        assert(before =~= text.take(0));
    } else {
        let rest = text.skip(1);
        lemma_before_separator(separators, rest);
        let m = before_separator(separators, rest).len() as int;
        assert(before.len() == m + 1);
        assert(before =~= text.take(m + 1)) by {
            assert(rest.take(m) =~= text.subrange(1, m + 1));
        }
        if m + 1 < text.len() {
            assert(rest[m] == text[m + 1]);
        }
        assert forall|i: int| 0 <= i < m + 1 implies !separates(separators, #[trigger] text[i]) by {
            if i > 0 {
                assert(rest[i - 1] == text[i]);
            }
        }
    }
}

/// The place of the first separator from `start` on, or the end.
fn find_separator(bytes: &[u8], start: usize, separators: Separators) -> (end: usize)
    requires
        start <= bytes@.len(),
    ensures
        start <= end <= bytes@.len(),
        bytes@.subrange(start as int, end as int) == before_separator(
            separators,
            bytes@.skip(start as int),
        ),
        end < bytes@.len() ==> separates(separators, bytes@[end as int]),
{
    let ghost text = bytes@.skip(start as int);
    let mut end: usize = start;
    while end < bytes.len() && !is_separator(separators, bytes[end])
        invariant
            start <= end <= bytes@.len(),
            text == bytes@.skip(start as int),
            forall|i: int| 0 <= i < end - start ==> !separates(separators, #[trigger] text[i]),
        decreases bytes@.len() - end,
    {
        assert(text[end - start] == bytes@[end as int]);
        end = end + 1;
    }
    proof {
        lemma_before_separator(separators, text);
        let n = before_separator(separators, text).len() as int;
        if n < end - start {
            assert(separates(separators, text[n]));
        }
        if end - start < n {
            assert(text[end - start] == bytes@[end as int]);
        }
        assert(text.take(n) =~= bytes@.subrange(start as int, end as int));
    }
    end
}

/// Two names after each other, and where the second of them ends: the first ends
/// at the first separator, the second at the next. The end is that of the first
/// where the second is empty.
fn read_names(bytes: &[u8], start: usize, separators: Separators) -> (result: (
    Vec<u8>,
    Vec<u8>,
    usize,
))
    requires
        start <= bytes@.len(),
    ensures
        result.0@ == before_separator(separators, bytes@.skip(start as int)),
        result.1@ == before_separator(
            separators,
            after_separator(separators, bytes@.skip(start as int)),
        ),
        result.2 == start + result.0@.len() + share_len(result.1@),
        result.2 <= bytes@.len(),
        result.2 < bytes@.len() ==> separates(separators, bytes@[result.2 as int]),
{
    let ghost text = bytes@.skip(start as int);
    let first_end = find_separator(bytes, start, separators);
    let first = copy_range(bytes, start, first_end);
    if first_end < bytes.len() {
        proof {
            assert(after_separator(separators, text) =~= bytes@.skip(first_end + 1));
        }
        let second_end = find_separator(bytes, first_end + 1, separators);
        let second = copy_range(bytes, first_end + 1, second_end);
        if second.len() > 0 {
            (first, second, second_end)
        } else {
            (first, second, first_end)
        }
    } else {
        let second: Vec<u8> = Vec::new();
        proof {
            assert(after_separator(separators, text) =~= Seq::<u8>::empty());
            assert(second@ =~= before_separator(separators, Seq::<u8>::empty()));
        }
        (first, second, first_end)
    }
}

/// Whether there is a drive at `start`.
fn has_drive(bytes: &[u8], start: usize) -> (has: bool)
    requires
        start <= bytes@.len(),
    ensures
        has == begins_with_drive(bytes@.skip(start as int)),
{
    bytes.len() - start >= 2 && ((65 <= bytes[start] && bytes[start] <= 90) || (97 <= bytes[start]
        && bytes[start] <= 122)) && bytes[start + 1] == COLON
}

/// A letter in upper case.
fn to_upper_case(letter: u8) -> (result: u8)
    ensures
        result == upper_case(letter),
{
    if letter >= 97 {
        letter - 32
    } else {
        letter
    }
}

/// The prefix of a Windows path, and where it ends.
fn read_prefix(bytes: &[u8]) -> (result: Option<(Prefix<Vec<u8>>, usize)>)
    ensures
        match result {
            Some((prefix, end)) => {
                &&& windows_prefix(bytes@) == Some(prefix_view(prefix))
                &&& end == prefix_len(prefix_view(prefix))
                &&& end <= bytes@.len()
            },
            None => windows_prefix(bytes@) is None,
        },
{
    let n: usize = bytes.len();
    if n >= 4 && bytes[0] == BACKSLASH && bytes[1] == BACKSLASH && bytes[2] == QUESTION && bytes[3]
        == BACKSLASH {
        if n >= 8 && bytes[4] == 85 && bytes[5] == 78 && bytes[6] == 67 && is_separator(
            Separators::Both,
            bytes[7],
        ) {
            let (server, share, end) = read_names(bytes, 8, Separators::Backslash);
            Some((Prefix::VerbatimUnc { server, share }, end))
        } else if has_drive(bytes, 4) && (n == 6 || is_separator(Separators::Both, bytes[6])) {
            Some((Prefix::VerbatimDisk(to_upper_case(bytes[4])), 6))
        } else {
            let end = find_separator(bytes, 4, Separators::Backslash);
            Some((Prefix::Verbatim(copy_range(bytes, 4, end)), end))
        }
    } else if n >= 2 && is_separator(Separators::Both, bytes[0]) && is_separator(
        Separators::Both,
        bytes[1],
    ) {
        if n >= 4 && bytes[2] == DOT && is_separator(Separators::Both, bytes[3]) {
            let end = find_separator(bytes, 4, Separators::Both);
            Some((Prefix::Device(copy_range(bytes, 4, end)), end))
        } else {
            let (server, share, end) = read_names(bytes, 2, Separators::Both);
            if server.len() > 0 && share.len() > 0 {
                Some((Prefix::Unc { server, share }, end))
            } else {
                None
            }
        }
    } else if has_drive(bytes, 0) {
        proof {
            assert(bytes@.skip(0) =~= bytes@);
        }
        Some((Prefix::Disk(to_upper_case(bytes[0])), 2))
    } else {
        proof {
            assert(bytes@.skip(0) =~= bytes@);
        }
        None
    }
}

/// What some components are.
pub open spec fn view_all(parts: Seq<Component>) -> Seq<ComponentView> {
    Seq::new(parts.len(), |i: int| parts[i]@)
}

/// Appends the component that `piece` stands for, if any.
fn push_component(parts: &mut Vec<Component>, verbatim: bool, piece: Vec<u8>)
    ensures
        view_all(final(parts)@) == view_all(old(parts)@) + piece_component(verbatim, piece@),
{
    let n: usize = piece.len();
    proof {
        assert(n == 0 ==> piece@ =~= Seq::<u8>::empty());
        assert(n == 1 && piece@[0] == DOT ==> piece@ =~= seq![DOT]);
        assert(n == 2 && piece@[0] == DOT && piece@[1] == DOT ==> piece@ =~= seq![DOT, DOT]);
        assert(piece@ == seq![DOT] ==> n == 1 && piece@[0] == DOT);
        assert(piece@ == seq![DOT, DOT] ==> n == 2 && piece@[0] == DOT && piece@[1] == DOT);
    }
    if n == 0 {
        assert(view_all(parts@) =~= view_all(old(parts)@) + piece_component(verbatim, piece@));
    } else if n == 1 && piece[0] == DOT {
        if verbatim {
            parts.push(Component::Current);
        }
        assert(view_all(parts@) =~= view_all(old(parts)@) + piece_component(verbatim, piece@));
    } else if n == 2 && piece[0] == DOT && piece[1] == DOT {
        parts.push(Component::Parent);
        assert(view_all(parts@) =~= view_all(old(parts)@) + piece_component(verbatim, piece@));
    } else {
        parts.push(Component::Normal(piece));
        assert(view_all(parts@) =~= view_all(old(parts)@) + piece_component(verbatim, piece@));
    }
}

/// Appends the components that the pieces from `start` on stand for.
fn push_pieces(
    parts: &mut Vec<Component>,
    verbatim: bool,
    separators: Separators,
    bytes: &[u8],
    start: usize,
)
    requires
        start <= bytes@.len(),
    ensures
        view_all(final(parts)@) == view_all(old(parts)@) + piece_components(
            verbatim,
            pieces(separators, bytes@.skip(start as int)),
        ),
{
    let n: usize = bytes.len();
    let ghost leading = view_all(parts@);
    let mut piece: Vec<u8> = Vec::new();
    let ghost mut done: Seq<Seq<u8>> = Seq::empty();
    proof {
        assert(bytes@.subrange(start as int, start as int) =~= Seq::<u8>::empty());
        assert(pieces(separators, bytes@.subrange(start as int, start as int)) =~= done.push(
            piece@,
        ));
        assert(view_all(parts@) =~= leading + piece_components(verbatim, done));
    }
    for i in start..n
        invariant
            start <= n == bytes@.len(),
            pieces(separators, bytes@.subrange(start as int, i as int)) == done.push(piece@),
            view_all(parts@) == leading + piece_components(verbatim, done),
    {
        let ghost before = bytes@.subrange(start as int, i as int);
        let ghost next = bytes@.subrange(start as int, i + 1);
        proof {
            assert(next.drop_last() =~= before);
            assert(next.last() == bytes@[i as int]);
            assert(done.push(piece@).drop_last() =~= done);
        }
        if is_separator(separators, bytes[i]) {
            let ghost ended = piece@;
            push_component(parts, verbatim, piece);
            piece = Vec::new();
            proof {
                let old_done = done;
                done = old_done.push(ended);
                assert(done.drop_last() =~= old_done);
                assert(view_all(parts@) =~= leading + piece_components(verbatim, done));
                assert(pieces(separators, next) =~= done.push(piece@));
            }
        } else {
            piece.push(bytes[i]);
            proof {
                assert(pieces(separators, next) =~= done.push(piece@));
            }
        }
    }
    let ghost ended = piece@;
    push_component(parts, verbatim, piece);
    proof {
        assert(bytes@.subrange(start as int, n as int) =~= bytes@.skip(start as int));
        assert(done.push(ended).drop_last() =~= done);
        assert(view_all(parts@) =~= leading + piece_components(
            verbatim,
            pieces(separators, bytes@.skip(start as int)),
        ));
    }
}

pub(crate) proof fn lemma_pieces_nonempty(separators: Separators, text: Seq<u8>)
    ensures
        pieces(separators, text).len() > 0,
    decreases text.len(),
{
    if text.len() > 0 {
        lemma_pieces_nonempty(separators, text.drop_last());
    }
}

/// The first piece is what stands before the first separator.
pub(crate) proof fn lemma_first_piece(separators: Separators, text: Seq<u8>)
    ensures
        pieces(separators, text).len() > 0,
        pieces(separators, text)[0] == before_separator(separators, text),
        pieces(separators, text).len() == 1 <==> before_separator(separators, text).len()
            == text.len(),
    decreases text.len(),
{
    lemma_before_separator(separators, text);
    if text.len() > 0 {
        let before = text.drop_last();
        lemma_first_piece(separators, before);
        lemma_before_separator(separators, before);
        let n = before_separator(separators, before).len() as int;
        let m = before_separator(separators, text).len() as int;
        assert forall|i: int| 0 <= i < before.len() implies #[trigger] before[i] == text[i] by {}
        if n < before.len() {
            assert(separates(separators, text[n]));
            assert(m == n) by {
                if m < n {
                    assert(before[m] == text[m]);
                }
            }
            assert(text.take(n) =~= before.take(n));
            assert(pieces(separators, text)[0] == pieces(separators, before)[0]);
        } else if separates(separators, text.last()) {
            assert(m == n) by {
                if m < n {
                    assert(before[m] == text[m]);
                } else if m > n {
                    assert(!separates(separators, text[n]));
                }
            }
            assert(text.take(n) =~= before.take(n));
            assert(pieces(separators, text)[0] == pieces(separators, before)[0]);
        } else {
            assert(m == text.len()) by {
                if m < n {
                    assert(before[m] == text[m]);
                }
            }
            assert(before.take(n) =~= before);
            assert(text.take(m) =~= text);
            assert(before.push(text.last()) =~= text);
            assert(pieces(separators, before) =~= seq![before]);
            assert(pieces(separators, text)[0] =~= text);
        }
    } else {
        assert(before_separator(separators, text) =~= Seq::<u8>::empty());
    }
}

/// The first piece is a lone `.` where the text is `.` or begins with it and a
/// separator.
pub(crate) proof fn lemma_first_piece_is_dot(separators: Separators, text: Seq<u8>)
    ensures
        pieces(separators, text)[0] == seq![DOT] <==> text.len() > 0 && text[0] == DOT && (
        text.len() == 1 || separates(separators, text[1])),
{
    lemma_first_piece(separators, text);
    lemma_before_separator(separators, text);
    let first = before_separator(separators, text);
    let n = first.len() as int;
    if first == seq![DOT] {
        assert(first.len() == 1 && first[0] == DOT);
        assert(text.take(n)[0] == text[0]);
    }
    if text.len() > 0 && text[0] == DOT && (text.len() == 1 || separates(separators, text[1])) {
        assert(!separates(separators, DOT));
        if n > 1 {
            assert(!separates(separators, text[1]));
        }
        assert(n == 1);
        assert(text.take(1) =~= seq![DOT]);
    }
}

/// The bytes that stand between components in ordinary paths.
fn usual_separators(syntax: Syntax) -> (separators: Separators)
    ensures
        separators == separators_in(syntax),
{
    match syntax {
        Syntax::Unix => Separators::Slash,
        Syntax::Windows => Separators::Both,
    }
}

/// The components of `path`.
pub fn split_path(path: &SystemPath) -> (parts: Vec<Component>)
    ensures
        view_all(parts@) == components(path@),
{
    let bytes = path.bytes.as_slice();
    let usual = usual_separators(path.syntax);
    let prefix = match path.syntax {
        Syntax::Unix => None,
        Syntax::Windows => read_prefix(bytes),
    };
    let mut parts: Vec<Component> = Vec::new();
    let n: usize = bytes.len();
    match prefix {
        Some((prefix, end)) => {
            let ghost body = bytes@.skip(end as int);
            let (verbatim, separators) = match &prefix {
                Prefix::Verbatim(_) => (true, Separators::Backslash),
                Prefix::VerbatimUnc { server: _, share: _ } => (true, Separators::Backslash),
                Prefix::VerbatimDisk(_) => (true, Separators::Backslash),
                _ => (false, Separators::Both),
            };
            let implied = match &prefix {
                Prefix::Device(_) => true,
                Prefix::Unc { server: _, share: _ } => true,
                _ => false,
            };
            parts.push(Component::Prefix(prefix));
            let rooted = end < n && is_separator(usual, bytes[end]);
            if rooted || implied {
                parts.push(Component::Root);
            }
            let start: usize = if rooted {
                end + 1
            } else {
                end
            };
            proof {
                assert(rooted == has_root(path.syntax, body));
                assert(view_all(parts@) =~= leading_of(path@));
                assert(names_of(path@) =~= bytes@.skip(start as int));
            }
            push_pieces(&mut parts, verbatim, separators, bytes, start);
        },
        None => {
            proof {
                assert(body_of(path@) =~= bytes@);
                lemma_first_piece_is_dot(usual, bytes@);
            }
            let rooted = n > 0 && is_separator(usual, bytes[0]);
            if rooted {
                parts.push(Component::Root);
            } else if n > 0 && bytes[0] == DOT && (n == 1 || is_separator(usual, bytes[1])) {
                parts.push(Component::Current);
            }
            let start: usize = if rooted {
                1
            } else {
                0
            };
            proof {
                assert(view_all(parts@) =~= leading_of(path@));
                assert(names_of(path@) =~= bytes@.skip(start as int));
            }
            push_pieces(&mut parts, false, usual, bytes, start);
        },
    }
    parts
}

/// Whether two prefixes are the same.
fn same_prefix(a: &Prefix<Vec<u8>>, b: &Prefix<Vec<u8>>) -> (same: bool)
    ensures
        same == (prefix_view(*a) == prefix_view(*b)),
{
    match (a, b) {
        (Prefix::Verbatim(x), Prefix::Verbatim(y)) => same_bytes(x.as_slice(), y.as_slice()),
        (
            Prefix::VerbatimUnc { server: x, share: v },
            Prefix::VerbatimUnc { server: y, share: w },
        ) => same_bytes(x.as_slice(), y.as_slice()) && same_bytes(v.as_slice(), w.as_slice()),
        (Prefix::VerbatimDisk(x), Prefix::VerbatimDisk(y)) => *x == *y,
        (Prefix::Device(x), Prefix::Device(y)) => same_bytes(x.as_slice(), y.as_slice()),
        (Prefix::Unc { server: x, share: v }, Prefix::Unc { server: y, share: w }) => same_bytes(
            x.as_slice(),
            y.as_slice(),
        ) && same_bytes(v.as_slice(), w.as_slice()),
        (Prefix::Disk(x), Prefix::Disk(y)) => *x == *y,
        _ => false,
    }
}

/// Whether two components are the same.
fn same_component(a: &Component, b: &Component) -> (same: bool)
    ensures
        same == (a@ == b@),
{
    match (a, b) {
        (Component::Prefix(x), Component::Prefix(y)) => same_prefix(x, y),
        (Component::Root, Component::Root) => true,
        (Component::Current, Component::Current) => true,
        (Component::Parent, Component::Parent) => true,
        (Component::Normal(x), Component::Normal(y)) => same_bytes(x.as_slice(), y.as_slice()),
        _ => false,
    }
}

/// Whether `parts` begins with `head`.
fn starts_with(parts: &Vec<Component>, head: &Vec<Component>) -> (starts: bool)
    ensures
        starts == (head.len() <= parts.len() && view_all(parts@).take(head.len() as int)
            == view_all(head@)),
{
    if head.len() > parts.len() {
        return false;
    }
    for i in 0..head.len()
        invariant
            head.len() <= parts.len(),
            forall|j: int| 0 <= j < i ==> parts@[j]@ == head@[j]@,
    {
        if !same_component(&parts[i], &head[i]) {
            proof {
                assert(view_all(parts@).take(head.len() as int)[i as int] == parts@[i as int]@);
                assert(view_all(head@)[i as int] == head@[i as int]@);
            }
            return false;
        }
    }
    assert(view_all(parts@).take(head.len() as int) =~= view_all(head@));
    true
}

/// Whether two paths have the same components.
pub fn same_path(a: &SystemPath, b: &SystemPath) -> (same: bool)
    ensures
        same == (components(a@) == components(b@)),
{
    let a_parts = split_path(a);
    let b_parts = split_path(b);
    if a_parts.len() != b_parts.len() {
        proof {
            assert(view_all(a_parts@).len() != view_all(b_parts@).len());
        }
        return false;
    }
    let same = starts_with(&a_parts, &b_parts);
    proof {
        assert(view_all(a_parts@).take(b_parts.len() as int) =~= view_all(a_parts@));
    }
    same
}

/// The last component of `path`, where it is a name: none for an empty path,
/// for a root or a prefix alone and for a path that ends in `..`.
pub fn file_name(path: &SystemPath) -> (name: Option<Vec<u8>>)
    ensures
        match name {
            Some(name) => file_name_of(path@) == Some(name@),
            None => file_name_of(path@) is None,
        },
{
    let mut parts = split_path(path);
    let ghost all = view_all(parts@);
    let last = parts.pop();
    proof {
        if last is Some {
            assert(all.last() == last->0@);
        }
    }
    match last {
        Some(Component::Normal(name)) => Some(name),
        _ => None,
    }
}

/// Whether there is a path that `path` lies directly under: there is none for
/// an empty path and for a root or a prefix alone.
pub fn has_parent(path: &SystemPath) -> (parent: bool)
    ensures
        parent == has_parent_spec(path@),
{
    let mut parts = split_path(path);
    let ghost all = view_all(parts@);
    let last = parts.pop();
    proof {
        if last is Some {
            assert(all.last() == last->0@);
        }
    }
    match last {
        Some(Component::Root) => false,
        Some(Component::Prefix(_)) => false,
        Some(_) => true,
        None => false,
    }
}

/// Whether `byte` is the lower-case letter `letter` or its upper case.
fn matches_letter(byte: u8, letter: u8) -> (is: bool)
    requires
        97 <= letter <= 122,
    ensures
        is == is_letter(byte, letter),
{
    byte == letter || byte == letter - 32
}

/// Whether `path` names a file with the extension `svg`, in upper or lower case.
pub fn is_svg(path: &SystemPath) -> (is: bool)
    ensures
        is == is_svg_spec(path@),
{
    match file_name(path) {
        Some(name) => {
            let n: usize = name.len();
            n > 4 && name[n - 4] == DOT && matches_letter(name[n - 3], 115) && matches_letter(
                name[n - 2],
                118,
            ) && matches_letter(name[n - 1], 103)
        },
        None => false,
    }
}

/// Where the parts of a path lie.
struct Layout {
    /// The end of the prefix.
    end: usize,
    /// The end of the root.
    start: usize,
    /// The number of components before the names.
    lead: usize,
    has_prefix: bool,
    verbatim: bool,
    separators: Separators,
    /// The length of the `.` that the names begin with, where no root precedes it.
    dot: usize,
}

/// Where the parts of `path` lie.
fn read_layout(path: &SystemPath) -> (layout: Layout)
    ensures
        layout.end == prefix_end(path@),
        layout.end <= layout.start <= path.bytes@.len(),
        layout.start == layout.end + body_of(path@).len() - names_of(path@).len(),
        names_of(path@) == path.bytes@.skip(layout.start as int),
        layout.lead == leading_of(path@).len(),
        layout.has_prefix == (prefix_of(path@) is Some),
        layout.verbatim == reads_verbatim(path@),
        layout.separators == separators_of(path@),
        layout.dot == dot_len(path@),
        layout.start + layout.dot <= path.bytes@.len(),
{
    let bytes = path.bytes.as_slice();
    let n: usize = bytes.len();
    let usual = usual_separators(path.syntax);
    let prefix = match path.syntax {
        Syntax::Unix => None,
        Syntax::Windows => read_prefix(bytes),
    };
    let (end, has_prefix, verbatim, implied) = match &prefix {
        Some((prefix, end)) => match prefix {
            Prefix::Device(_) => (*end, true, false, true),
            Prefix::Unc { server: _, share: _ } => (*end, true, false, true),
            Prefix::Disk(_) => (*end, true, false, false),
            _ => (*end, true, true, false),
        },
        None => (0, false, false, false),
    };
    let separators = if verbatim {
        Separators::Backslash
    } else {
        usual
    };
    let ghost body = bytes@.skip(end as int);
    let rooted = end < n && is_separator(usual, bytes[end]);
    let start: usize = if rooted {
        end + 1
    } else {
        end
    };
    proof {
        assert(body_of(path@) == body);
        assert(rooted == is_rooted(path@));
        assert(names_of(path@) =~= bytes@.skip(start as int));
        lemma_first_piece_is_dot(separators, bytes@.skip(start as int));
    }
    let dot: usize = if !rooted && start < n && bytes[start] == DOT && (start + 1 == n
        || is_separator(separators, bytes[start + 1])) {
        1
    } else {
        0
    };
    let lead: usize = if has_prefix {
        if rooted || implied {
            2
        } else {
            1
        }
    } else if rooted {
        1
    } else {
        dot
    };
    Layout { end, start, lead, has_prefix, verbatim, separators, dot }
}

/// Whether the piece from `start` to `end` stands for no component.
fn is_nothing(verbatim: bool, bytes: &[u8], start: usize, end: usize) -> (is: bool)
    requires
        start <= end <= bytes@.len(),
    ensures
        is == (piece_component(verbatim, bytes@.subrange(start as int, end as int)).len() == 0),
{
    let ghost piece = bytes@.subrange(start as int, end as int);
    proof {
        assert(piece.len() == 0 ==> piece =~= Seq::<u8>::empty());
        assert(piece.len() == 1 && piece[0] == DOT ==> piece =~= seq![DOT]);
        assert(piece == seq![DOT] ==> piece.len() == 1 && piece[0] == DOT);
    }
    start == end || (end - start == 1 && bytes[start] == DOT && !verbatim)
}

/// Where what is left of the names from `start` on begins, after the pieces of
/// `n` components.
fn find_tail(
    verbatim: bool,
    separators: Separators,
    bytes: &[u8],
    start: usize,
    n: usize,
) -> (tail: usize)
    requires
        start <= bytes@.len(),
    ensures
        start <= tail <= bytes@.len(),
        bytes@.skip(tail as int) == tail_after(
            verbatim,
            separators,
            bytes@.skip(start as int),
            n as nat,
        ),
{
    let len: usize = bytes.len();
    let mut tail: usize = start;
    let mut left: usize = n;
    let ghost wanted = tail_after(verbatim, separators, bytes@.skip(start as int), n as nat);
    while tail < len
        invariant_except_break
            tail_after(verbatim, separators, bytes@.skip(tail as int), left as nat) == wanted,
        invariant
            start <= tail <= len == bytes@.len(),
        ensures
            bytes@.skip(tail as int) == wanted,
        decreases len - tail,
    {
        let ghost text = bytes@.skip(tail as int);
        let end = find_separator(bytes, tail, separators);
        let nothing = is_nothing(verbatim, bytes, tail, end);
        if !nothing {
            if left == 0 {
                break;
            }
            left = left - 1;
        }
        proof {
            let rest = after_separator(separators, text);
            if end < len {
                assert(rest =~= bytes@.skip(end + 1));
            } else {
                assert(rest =~= bytes@.skip(len as int));
            }
        }
        if end < len {
            tail = end + 1;
        } else {
            tail = len;
        }
    }
    tail
}

/// Bytes after the last separator are the last piece.
pub(crate) proof fn lemma_last_piece(separators: Separators, text: Seq<u8>, k: int)
    requires
        0 <= k <= text.len(),
        k == 0 || separates(separators, text[k - 1]),
        forall|i: int| k <= i < text.len() ==> !separates(separators, #[trigger] text[i]),
    ensures
        pieces(separators, text).last() == text.skip(k),
        k > 0 ==> pieces(separators, text).drop_last() == pieces(separators, text.take(k - 1)),
        k == 0 ==> pieces(separators, text) == seq![text],
    decreases text.len(),
{
    let all = pieces(separators, text);
    if text.len() == 0 {
        assert(text =~= Seq::<u8>::empty());
        assert(all.last() =~= text.skip(k));
    } else if k == text.len() {
        assert(all.last() =~= text.skip(k));
        assert(text.drop_last() =~= text.take(k - 1));
        assert(all.drop_last() =~= pieces(separators, text.take(k - 1)));
    } else {
        let before = text.drop_last();
        assert forall|i: int| k <= i < before.len() implies !separates(
            separators,
            #[trigger] before[i],
        ) by {
            assert(before[i] == text[i]);
        }
        assert(k > 0 ==> before[k - 1] == text[k - 1]);
        lemma_last_piece(separators, before, k);
        assert(separates(separators, text.last()) == false) by {
            assert(text.last() == text[text.len() - 1]);
        }
        assert(before.skip(k).push(text.last()) =~= text.skip(k));
        assert(all.drop_last() =~= pieces(separators, before).drop_last());
        if k > 0 {
            assert(before.take(k - 1) =~= text.take(k - 1));
        } else {
            assert(all =~= seq![text]) by {
                assert(before.skip(0) =~= before);
                assert(text.skip(0) =~= text);
            }
        }
    }
}

/// Where the text from `start` on ends, without the pieces at its end that stand for
/// no component.
fn find_end(
    verbatim: bool,
    separators: Separators,
    bytes: &[u8],
    start: usize,
    floor: usize,
) -> (end: usize)
    requires
        start <= bytes@.len(),
    ensures
        start <= end <= bytes@.len(),
        bytes@.subrange(start as int, end as int) == trim_end(
            verbatim,
            separators,
            bytes@.skip(start as int),
            floor as nat,
        ),
{
    let mut end: usize = bytes.len();
    let ghost wanted = trim_end(verbatim, separators, bytes@.skip(start as int), floor as nat);
    proof {
        assert(bytes@.subrange(start as int, end as int) =~= bytes@.skip(start as int));
    }
    while end - start > floor
        invariant_except_break
            trim_end(
                verbatim,
                separators,
                bytes@.subrange(start as int, end as int),
                floor as nat,
            ) == wanted,
        invariant
            start <= end <= bytes@.len(),
        ensures
            bytes@.subrange(start as int, end as int) == wanted,
        decreases end - start,
    {
        let ghost text = bytes@.subrange(start as int, end as int);
        let mut last: usize = end;
        while last > start && !is_separator(separators, bytes[last - 1])
            invariant
                start <= last <= end <= bytes@.len(),
                text == bytes@.subrange(start as int, end as int),
                forall|i: int| last - start <= i < text.len() ==> !separates(
                    separators,
                    #[trigger] text[i],
                ),
            decreases last,
        {
            assert(text[last - 1 - start] == bytes@[last - 1]);
            last = last - 1;
        }
        proof {
            assert(last > start ==> text[last - start - 1] == bytes@[last - 1]);
            lemma_last_piece(separators, text, last - start);
            assert(text.skip(last - start) =~= bytes@.subrange(last as int, end as int));
        }
        if !is_nothing(verbatim, bytes, last, end) {
            break;
        }
        if last > start {
            proof {
                assert(without_last(separators, text) =~= bytes@.subrange(
                    start as int,
                    last - 1,
                ));
            }
            end = last - 1;
        } else {
            proof {
                assert(without_last(separators, text) =~= bytes@.subrange(
                    start as int,
                    start as int,
                ));
            }
            end = start;
        }
    }
    end
}

/// The part of `path` below `base`, as it is written, where `base` is a prefix of
/// `path`, component by component.
pub fn strip_prefix(path: &SystemPath, base: &SystemPath) -> (relative: Option<SystemPath>)
    ensures
        relative is Some <==> is_under(path@, base@),
        relative matches Some(relative) ==> relative@ == relative_to(path@, base@),
{
    let parts = split_path(path);
    let base_parts = split_path(base);
    proof {
        assert(view_all(parts@).len() == parts.len());
        assert(view_all(base_parts@).len() == base_parts.len());
    }
    if !starts_with(&parts, &base_parts) {
        return None;
    }
    let n: usize = base_parts.len();
    let bytes = path.bytes.as_slice();
    let layout = read_layout(path);
    let Layout { end, start, lead, has_prefix, verbatim, separators, dot } = layout;
    let relative = if n == 0 {
        let last = find_end(verbatim, separators, bytes, start, dot);
        let relative = copy_range(bytes, 0, last);
        proof {
            assert(relative@ =~= bytes@.take(start as int) + bytes@.subrange(
                start as int,
                last as int,
            ));
        }
        relative
    } else if n < lead || (n == lead && has_prefix && lead == 1) {
        let last = find_end(verbatim, separators, bytes, start, dot);
        let relative = copy_range(bytes, end, last);
        proof {
            assert(body_of(path@).take(start - end) =~= bytes@.subrange(
                end as int,
                start as int,
            ));
            assert(relative@ =~= bytes@.subrange(end as int, start as int) + bytes@.subrange(
                start as int,
                last as int,
            ));
        }
        relative
    } else {
        let tail = find_tail(verbatim, separators, bytes, start, n - lead);
        let last = find_end(verbatim, separators, bytes, tail, 0);
        copy_range(bytes, tail, last)
    };
    Some(SystemPath { syntax: path.syntax, bytes: relative })
}

} // verus!
