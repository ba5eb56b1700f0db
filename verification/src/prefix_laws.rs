//! What a path can begin with.

use vstd::prelude::*;

use crate::path::{
    after_separator, before_separator, lemma_before_separator, prefix_end, prefix_of,
    reads_verbatim, separates, separators_of, PathView, Prefix, Separators, Syntax,
};

verus! {

/// Bytes as a path on Windows.
pub open spec fn windows_path(bytes: Seq<u8>) -> PathView {
    PathView { syntax: Syntax::Windows, bytes }
}

/// Whether `byte` is `/` or `\`.
pub open spec fn is_slash(byte: u8) -> bool {
    byte == 47 || byte == 92
}

/// Whether `name` holds none of `/` and `\`.
pub open spec fn is_slash_free(name: Seq<u8>) -> bool {
    forall|i: int| 0 <= i < name.len() ==> !is_slash(#[trigger] name[i])
}

/// Whether `name` holds no `\`.
pub open spec fn is_backslash_free(name: Seq<u8>) -> bool {
    forall|i: int| 0 <= i < name.len() ==> (#[trigger] name[i]) != 92
}

/// Whether `drive` is `letter` in upper case.
pub open spec fn is_upper_case_of(drive: u8, letter: u8) -> bool {
    65 <= drive <= 90 && (drive == letter || drive + 32 == letter)
}

/// A name before a separator, or at the end.
proof fn lemma_name_first(separators: Separators, name: Seq<u8>, rest: Seq<u8>)
    requires
        forall|i: int| 0 <= i < name.len() ==> !separates(separators, #[trigger] name[i]),
        rest.len() > 0 ==> separates(separators, rest[0]),
    ensures
        before_separator(separators, name + rest) == name,
        after_separator(separators, name + rest) == (if rest.len() > 0 {
            rest.skip(1)
        } else {
            rest
        }),
{
    let text = name + rest;
    lemma_before_separator(separators, text);
    let n = before_separator(separators, text).len() as int;
    assert(n == name.len()) by {
        if n < name.len() {
            assert(text[n] == name[n]);
        } else if n > name.len() {
            assert(text[name.len() as int] == rest[0]);
        }
    }
    assert(text.take(n) =~= name);
    assert(after_separator(separators, text) =~= if rest.len() > 0 {
        rest.skip(1)
    } else {
        rest
    });
}

/// On Unix a path has no prefix, and `/` alone stands between names.
pub proof fn lemma_unix_has_no_prefix(bytes: Seq<u8>, byte: u8)
    ensures
        ({
            let path = PathView { syntax: Syntax::Unix, bytes };
            &&& prefix_of(path) is None
            &&& prefix_end(path) == 0
            &&& !reads_verbatim(path)
            &&& separates(separators_of(path), byte) <==> byte == 47
        }),
{
}

/// On Windows a path has no prefix that begins neither with two separators nor with a
/// byte and `:`.
pub proof fn lemma_plain_path_has_no_prefix(bytes: Seq<u8>, byte: u8)
    requires
        bytes.len() >= 2 ==> bytes[1] != 58 && !(is_slash(bytes[0]) && is_slash(bytes[1])),
    ensures
        ({
            let path = windows_path(bytes);
            &&& prefix_of(path) is None
            &&& prefix_end(path) == 0
            &&& !reads_verbatim(path)
            &&& separates(separators_of(path), byte) <==> is_slash(byte)
        }),
{
}

/// `C:` is a drive, in upper or lower case.
pub proof fn lemma_drive(letter: u8, drive: u8, rest: Seq<u8>, byte: u8)
    requires
        is_upper_case_of(drive, letter),
    ensures
        ({
            let path = windows_path(seq![letter, 58u8] + rest);
            &&& prefix_of(path) == Some(Prefix::<Seq<u8>>::Disk(drive))
            &&& prefix_end(path) == 2
            &&& !reads_verbatim(path)
            &&& separates(separators_of(path), byte) <==> is_slash(byte)
        }),
{
    let bytes = seq![letter, 58u8] + rest;
    assert(bytes[0] == letter && bytes[1] == 58);
}

/// `\\server\share` is a share.
pub proof fn lemma_share(
    first: u8,
    second: u8,
    server: Seq<u8>,
    third: u8,
    share: Seq<u8>,
    rest: Seq<u8>,
    byte: u8,
)
    requires
        is_slash(first) && is_slash(second) && is_slash(third),
        server.len() > 0 && share.len() > 0,
        server != seq![46u8] && server != seq![63u8],
        is_slash_free(server) && is_slash_free(share),
        rest.len() > 0 ==> is_slash(rest[0]),
    ensures
        ({
            let path = windows_path(
                seq![first, second] + (server + (seq![third] + (share + rest))),
            );
            &&& prefix_of(path) == Some(Prefix::Unc { server, share })
            &&& prefix_end(path) == 3 + server.len() + share.len()
            &&& !reads_verbatim(path)
            &&& separates(separators_of(path), byte) <==> is_slash(byte)
        }),
{
    let after = share + rest;
    let names = server + (seq![third] + after);
    let bytes = seq![first, second] + names;
    assert(bytes[0] == first && bytes[1] == second);
    assert(bytes.skip(2) =~= names);
    lemma_name_first(Separators::Both, server, seq![third] + after);
    assert((seq![third] + after).skip(1) =~= after);
    lemma_name_first(Separators::Both, share, rest);
    assert(bytes[2] == server[0]);
    if server.len() > 1 {
        assert(bytes[3] == server[1]);
    } else {
        assert(server =~= seq![server[0]]);
    }
}

/// `\\.\name` is a device.
pub proof fn lemma_device(
    first: u8,
    second: u8,
    third: u8,
    name: Seq<u8>,
    rest: Seq<u8>,
    byte: u8,
)
    requires
        is_slash(first) && is_slash(second) && is_slash(third),
        is_slash_free(name),
        rest.len() > 0 ==> is_slash(rest[0]),
    ensures
        ({
            let path = windows_path(seq![first, second, 46u8, third] + (name + rest));
            &&& prefix_of(path) == Some(Prefix::Device(name))
            &&& prefix_end(path) == 4 + name.len()
            &&& !reads_verbatim(path)
            &&& separates(separators_of(path), byte) <==> is_slash(byte)
        }),
{
    let bytes = seq![first, second, 46u8, third] + (name + rest);
    assert(bytes[0] == first && bytes[1] == second && bytes[2] == 46 && bytes[3] == third);
    assert(bytes.skip(4) =~= name + rest);
    lemma_name_first(Separators::Both, name, rest);
}

/// `\\?\C:` is a drive, after which a path is taken as it is.
pub proof fn lemma_verbatim_drive(letter: u8, drive: u8, rest: Seq<u8>, byte: u8)
    requires
        is_upper_case_of(drive, letter),
        rest.len() > 0 ==> is_slash(rest[0]),
    ensures
        ({
            let path = windows_path(seq![92u8, 92u8, 63u8, 92u8, letter, 58u8] + rest);
            &&& prefix_of(path) == Some(Prefix::<Seq<u8>>::VerbatimDisk(drive))
            &&& prefix_end(path) == 6
            &&& reads_verbatim(path)
            &&& separates(separators_of(path), byte) <==> byte == 92
        }),
{
    let bytes = seq![92u8, 92u8, 63u8, 92u8, letter, 58u8] + rest;
    assert(bytes[0] == 92 && bytes[1] == 92 && bytes[2] == 63 && bytes[3] == 92);
    let after = bytes.skip(4);
    assert(after[0] == letter && after[1] == 58);
    if rest.len() > 0 {
        assert(after[2] == rest[0]);
    }
}

/// `\\?\UNC\server\share` is a share, after which a path is taken as it is.
pub proof fn lemma_verbatim_share(
    separator: u8,
    server: Seq<u8>,
    share: Seq<u8>,
    rest: Seq<u8>,
    byte: u8,
)
    requires
        is_slash(separator),
        share.len() > 0,
        is_backslash_free(server) && is_backslash_free(share),
        rest.len() > 0 ==> rest[0] == 92,
    ensures
        ({
            let path = windows_path(
                seq![92u8, 92u8, 63u8, 92u8, 85u8, 78u8, 67u8, separator] + (server + (seq![92u8]
                    + (share + rest))),
            );
            &&& prefix_of(path) == Some(Prefix::VerbatimUnc { server, share })
            &&& prefix_end(path) == 9 + server.len() + share.len()
            &&& reads_verbatim(path)
            &&& separates(separators_of(path), byte) <==> byte == 92
        }),
{
    let after = share + rest;
    let names = server + (seq![92u8] + after);
    let bytes = seq![92u8, 92u8, 63u8, 92u8, 85u8, 78u8, 67u8, separator] + names;
    assert(bytes[0] == 92 && bytes[1] == 92 && bytes[2] == 63 && bytes[3] == 92);
    assert(bytes[4] == 85 && bytes[5] == 78 && bytes[6] == 67 && bytes[7] == separator);
    let verbatim = bytes.skip(4);
    assert(verbatim[0] == 85 && verbatim[1] == 78 && verbatim[2] == 67 && verbatim[3]
        == separator);
    assert(bytes.skip(8) =~= names);
    lemma_name_first(Separators::Backslash, server, seq![92u8] + after);
    assert((seq![92u8] + after).skip(1) =~= after);
    lemma_name_first(Separators::Backslash, share, rest);
}

/// `\\?\name` is a name, after which a path is taken as it is.
pub proof fn lemma_verbatim_name(name: Seq<u8>, rest: Seq<u8>, byte: u8)
    requires
        is_backslash_free(name),
        name.len() > 1 ==> name[1] != 58,
        name.len() > 2 ==> !(name[0] == 85 && name[1] == 78 && name[2] == 67),
        rest.len() > 0 ==> rest[0] == 92,
    ensures
        ({
            let path = windows_path(seq![92u8, 92u8, 63u8, 92u8] + (name + rest));
            &&& prefix_of(path) == Some(Prefix::Verbatim(name))
            &&& prefix_end(path) == 4 + name.len()
            &&& reads_verbatim(path)
            &&& separates(separators_of(path), byte) <==> byte == 92
        }),
{
    let bytes = seq![92u8, 92u8, 63u8, 92u8] + (name + rest);
    assert(bytes[0] == 92 && bytes[1] == 92 && bytes[2] == 63 && bytes[3] == 92);
    let after = bytes.skip(4);
    assert(after =~= name + rest);
    lemma_name_first(Separators::Backslash, name, rest);
    if name.len() > 0 {
        assert(after[0] == name[0]);
    }
    if name.len() > 1 {
        assert(after[1] == name[1]);
    } else if after.len() > 1 && name.len() == 1 {
        assert(after[1] == rest[0]);
    } else if after.len() > 0 && name.len() == 0 {
        assert(after[0] == rest[0]);
    }
    if name.len() > 2 {
        assert(after[2] == name[2]);
    } else if after.len() > 2 && name.len() == 2 {
        assert(after[2] == rest[0]);
    }
}

} // verus!
