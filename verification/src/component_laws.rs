//! What the components of a path are, from how it is written.

use vstd::prelude::*;

use crate::path::{
    after_separator, before_separator, body_of, components, file_name_of, has_parent_spec,
    is_rooted, is_svg_spec, is_under, leading_of, lemma_before_separator, lemma_first_piece,
    lemma_last_piece, lemma_pieces_nonempty, name_components, names_of, piece_component,
    piece_components, pieces, prefix_end, prefix_of, reads_verbatim, relative_to, separates,
    separators_of, tail_after, trim_end, ComponentView, PathView, Prefix, Separators, Syntax,
};
use crate::path_laws::{lemma_name_components_front, lemma_piece_components_front};

verus! {

/// `base`, a separator and more.
pub open spec fn joined(base: PathView, separator: u8, rest: Seq<u8>) -> PathView {
    PathView { syntax: base.syntax, bytes: base.bytes.push(separator) + rest }
}

/// Whether `name` holds neither `/` nor `\`.
pub open spec fn is_unseparated(name: Seq<u8>) -> bool {
    forall|i: int| 0 <= i < name.len() ==> (#[trigger] name[i]) != 47 && name[i] != 92
}

/// Whether `separator` can stand after `base`: `/` on Unix, `\` on Windows, and there
/// `/` too unless the path is verbatim. Something but a prefix comes before it.
pub open spec fn can_follow(base: PathView, separator: u8, rest: Seq<u8>) -> bool {
    &&& base.bytes.len() > prefix_end(base)
    &&& prefix_of(joined(base, separator, rest)) == prefix_of(base)
    &&& match base.syntax {
        Syntax::Unix => separator == 47,
        Syntax::Windows => separator == 92 || (separator == 47 && !reads_verbatim(base)),
    }
}

/// The pieces of two texts with a separator between them.
proof fn lemma_pieces_of_joined(separators: Separators, left: Seq<u8>, byte: u8, right: Seq<u8>)
    requires
        separates(separators, byte),
    ensures
        pieces(separators, left.push(byte) + right) == pieces(separators, left) + pieces(
            separators,
            right,
        ),
    decreases right.len(),
{
    let text = left.push(byte) + right;
    if right.len() == 0 {
        assert(text.drop_last() =~= left);
        assert(text.last() == byte);
        assert(pieces(separators, text) =~= pieces(separators, left) + pieces(separators, right));
    } else {
        let before = right.drop_last();
        lemma_pieces_of_joined(separators, left, byte, before);
        lemma_pieces_nonempty(separators, before);
        assert(text.drop_last() =~= left.push(byte) + before);
        assert(text.last() == right.last());
        assert(pieces(separators, text) =~= pieces(separators, left) + pieces(separators, right));
    }
}

/// The components of some pieces and of more.
proof fn lemma_components_of_pieces(verbatim: bool, left: Seq<Seq<u8>>, right: Seq<Seq<u8>>)
    ensures
        piece_components(verbatim, left + right) == piece_components(verbatim, left)
            + piece_components(verbatim, right),
    decreases right.len(),
{
    if right.len() == 0 {
        assert(left + right =~= left);
        assert(piece_components(verbatim, right) =~= Seq::<ComponentView>::empty());
        assert(piece_components(verbatim, left) + Seq::<ComponentView>::empty()
            =~= piece_components(verbatim, left));
    } else {
        lemma_components_of_pieces(verbatim, left, right.drop_last());
        assert((left + right).drop_last() =~= left + right.drop_last());
        assert((left + right).last() == right.last());
        assert(piece_components(verbatim, left + right) =~= piece_components(verbatim, left)
            + piece_components(verbatim, right));
    }
}

/// The names of a path that goes on after `base`.
proof fn lemma_names_of_joined(base: PathView, separator: u8, rest: Seq<u8>)
    requires
        can_follow(base, separator, rest),
        prefix_end(base) <= base.bytes.len(),
    ensures
        ({
            let path = joined(base, separator, rest);
            &&& prefix_end(path) == prefix_end(base)
            &&& separates(separators_of(base), separator)
            &&& separators_of(path) == separators_of(base)
            &&& reads_verbatim(path) == reads_verbatim(base)
            &&& body_of(path) == body_of(base).push(separator) + rest
            &&& is_rooted(path) == is_rooted(base)
            &&& names_of(path) == names_of(base).push(separator) + rest
            &&& leading_of(path) == leading_of(base)
        }),
{
    let path = joined(base, separator, rest);
    let end = prefix_end(base) as int;
    let body = body_of(base);
    assert(body_of(path) =~= body.push(separator) + rest);
    assert(body_of(path)[0] == body[0]);
    assert(names_of(path) =~= names_of(base).push(separator) + rest);
    if prefix_of(base) is None {
        let separators = separators_of(base);
        lemma_pieces_of_joined(separators, body, separator, rest);
        lemma_pieces_nonempty(separators, body);
        assert(pieces(separators, body_of(path))[0] == pieces(separators, body)[0]);
    }
}

/// A path that goes on after `base` has the components of `base`, then those of the
/// rest.
proof fn lemma_components_of_joined(base: PathView, separator: u8, rest: Seq<u8>)
    requires
        can_follow(base, separator, rest),
    ensures
        components(joined(base, separator, rest)) == components(base) + name_components(
            reads_verbatim(base),
            separators_of(base),
            rest,
        ),
{
    let path = joined(base, separator, rest);
    let verbatim = reads_verbatim(base);
    let separators = separators_of(base);
    lemma_names_of_joined(base, separator, rest);
    lemma_pieces_of_joined(separators, names_of(base), separator, rest);
    lemma_components_of_pieces(
        verbatim,
        pieces(separators, names_of(base)),
        pieces(separators, rest),
    );
    assert(components(path) =~= components(base) + name_components(verbatim, separators, rest));
}

/// A text without separators is one piece.
proof fn lemma_one_piece(verbatim: bool, separators: Separators, name: Seq<u8>)
    requires
        is_unseparated(name),
    ensures
        name_components(verbatim, separators, name) == piece_component(verbatim, name),
{
    lemma_last_piece(separators, name, 0);
    let none = Seq::<Seq<u8>>::empty();
    lemma_piece_components_front(verbatim, name, none);
    assert(seq![name] + none =~= seq![name]);
    assert(piece_component(verbatim, name) + piece_components(verbatim, none) =~= piece_component(
        verbatim,
        name,
    ));
}

/// A name after a separator is one more component: `..` the parent, and any other but
/// `.` a name of its own. A separator at the end, or one before another, changes
/// nothing, and neither does a `.`, unless the path is verbatim.
pub proof fn lemma_name_is_one_more_component(base: PathView, separator: u8, name: Seq<u8>)
    requires
        can_follow(base, separator, name),
        is_unseparated(name),
    ensures
        ({
            let parts = components(joined(base, separator, name));
            if name.len() == 0 {
                parts == components(base)
            } else if name == seq![46u8] {
                if reads_verbatim(base) {
                    parts == components(base).push(ComponentView::Current)
                } else {
                    parts == components(base)
                }
            } else if name == seq![46u8, 46u8] {
                parts == components(base).push(ComponentView::Parent)
            } else {
                parts == components(base).push(ComponentView::Normal(name))
            }
        }),
{
    lemma_components_of_joined(base, separator, name);
    lemma_one_piece(reads_verbatim(base), separators_of(base), name);
    let parts = components(joined(base, separator, name));
    let none = Seq::<u8>::empty();
    if name.len() == 0 {
        assert(name =~= none);
        assert(parts =~= components(base));
    } else {
        assert(name != none);
        if name == seq![46u8] {
            assert(reads_verbatim(base) ==> parts =~= components(base).push(
                ComponentView::Current,
            ));
            assert(!reads_verbatim(base) ==> parts =~= components(base));
        } else if name == seq![46u8, 46u8] {
            assert(seq![46u8].len() != seq![46u8, 46u8].len());
            assert(parts =~= components(base).push(ComponentView::Parent));
        } else {
            assert(parts =~= components(base).push(ComponentView::Normal(name)));
        }
    }
}

/// The prefix of a path, where it has one.
pub open spec fn prefix_part(path: PathView) -> Seq<ComponentView> {
    match prefix_of(path) {
        Some(prefix) => seq![ComponentView::Prefix(prefix)],
        None => Seq::empty(),
    }
}

/// A root that is written, or that goes with a share or a device.
pub open spec fn root_part(path: PathView, is_written: bool) -> Seq<ComponentView> {
    if is_written || (prefix_of(path) matches Some(prefix) && (prefix is Unc || prefix is Device)) {
        seq![ComponentView::Root]
    } else {
        Seq::empty()
    }
}

/// What stands after the prefix is the root, where it begins with a separator, and then
/// the first name. A first name `.` counts where the path is verbatim, or where
/// nothing stands before it.
pub proof fn lemma_first_components(path: PathView, is_written: bool, separator: u8, name: Seq<u8>)
    requires
        separator == 47 || (separator == 92 && path.syntax == Syntax::Windows),
        is_unseparated(name),
        path.bytes.skip(prefix_end(path) as int) == (if is_written {
            seq![separator] + name
        } else {
            name
        }),
    ensures
        ({
            let start = prefix_part(path) + root_part(path, is_written);
            if name.len() == 0 {
                components(path) == start
            } else if name == seq![46u8] {
                if reads_verbatim(path) || start.len() == 0 {
                    components(path) == start.push(ComponentView::Current)
                } else {
                    components(path) == start
                }
            } else if name == seq![46u8, 46u8] {
                components(path) == start.push(ComponentView::Parent)
            } else {
                components(path) == start.push(ComponentView::Normal(name))
            }
        }),
{
    let start = prefix_part(path) + root_part(path, is_written);
    let body = body_of(path);
    let separators = separators_of(path);
    let own = piece_component(reads_verbatim(path), name);
    assert(is_written ==> body[0] == separator);
    assert(is_rooted(path) == is_written);
    assert(names_of(path) =~= name);
    lemma_one_piece(reads_verbatim(path), separators, name);
    assert(components(path) == leading_of(path) + own);
    if name.len() == 0 {
        assert(name =~= Seq::<u8>::empty());
    } else {
        assert(name != Seq::<u8>::empty());
    }
    assert(seq![46u8].len() != seq![46u8, 46u8].len());
    if prefix_of(path) is None {
        if !is_written {
            lemma_last_piece(separators, name, 0);
            if name == seq![46u8] {
                assert(leading_of(path) =~= seq![ComponentView::Current]);
                assert(components(path) =~= start.push(ComponentView::Current));
            } else {
                assert(seq![46u8].len() != Seq::<u8>::empty().len());
                assert(leading_of(path) =~= start);
            }
        } else {
            assert(leading_of(path) =~= start);
        }
    } else {
        assert(leading_of(path) =~= start);
    }
    if name.len() == 0 {
        assert(components(path) =~= start);
    } else if name == seq![46u8] {
        if reads_verbatim(path) {
            assert(components(path) =~= start.push(ComponentView::Current));
        } else if start.len() > 0 {
            assert(components(path) =~= start);
        }
    } else if name == seq![46u8, 46u8] {
        assert(components(path) =~= start.push(ComponentView::Parent));
    } else {
        assert(components(path) =~= start.push(ComponentView::Normal(name)));
    }
}

/// The file name is what stands after the last separator. Where that is nothing, or a
/// `.` that does not count, it is the file name of what stands before; where it is
/// `..`, there is none.
pub proof fn lemma_last_name_is_file_name(base: PathView, separator: u8, name: Seq<u8>)
    requires
        can_follow(base, separator, name),
        is_unseparated(name),
    ensures
        ({
            let path = joined(base, separator, name);
            if name.len() == 0 || (name == seq![46u8] && !reads_verbatim(base)) {
                file_name_of(path) == file_name_of(base)
            } else if name == seq![46u8] || name == seq![46u8, 46u8] {
                file_name_of(path) is None
            } else {
                file_name_of(path) == Some(name)
            }
        }),
{
    lemma_name_is_one_more_component(base, separator, name);
}

/// A path that is a name alone has that file name.
pub proof fn lemma_name_alone_is_file_name(path: PathView)
    requires
        prefix_of(path) is None,
        is_unseparated(path.bytes),
    ensures
        path.bytes.len() == 0 || path.bytes == seq![46u8] || path.bytes == seq![46u8, 46u8]
            ==> file_name_of(path) is None,
        !(path.bytes.len() == 0 || path.bytes == seq![46u8] || path.bytes == seq![46u8, 46u8])
            ==> file_name_of(path) == Some(path.bytes),
{
    assert(path.bytes.skip(0) =~= path.bytes);
    lemma_first_components(path, false, 47, path.bytes);
}

/// Whether `ending` is `.svg` in upper or lower case.
pub open spec fn is_svg_ending(ending: Seq<u8>) -> bool {
    &&& ending.len() == 4
    &&& ending[0] == 46
    &&& ending[1] == 115 || ending[1] == 83
    &&& ending[2] == 118 || ending[2] == 86
    &&& ending[3] == 103 || ending[3] == 71
}

/// A file is an SVG file if and only if its name is something and `.svg`, in upper or
/// lower case.
pub proof fn lemma_svg_files_by_name(path: PathView, stem: Seq<u8>, ending: Seq<u8>)
    ensures
        file_name_of(path) is None ==> !is_svg_spec(path),
        ending.len() == 4 && file_name_of(path) == Some(stem + ending) ==> (is_svg_spec(path) <==> (
        stem.len() > 0 && is_svg_ending(ending))),
        file_name_of(path) matches Some(name) ==> name.len() < 4 ==> !is_svg_spec(path),
{
    if ending.len() == 4 {
        let name = stem + ending;
        let n = name.len() as int;
        assert(name[n - 4] == ending[0] && name[n - 3] == ending[1] && name[n - 2] == ending[2]
            && name[n - 1] == ending[3]);
    }
}

/// What has a name, or `..`, after a separator, has a parent; what has nothing there
/// has one if what stands before has.
pub proof fn lemma_name_has_parent(base: PathView, separator: u8, name: Seq<u8>)
    requires
        can_follow(base, separator, name),
        is_unseparated(name),
    ensures
        name.len() > 0 && name != seq![46u8] ==> has_parent_spec(joined(base, separator, name)),
        name.len() == 0 ==> has_parent_spec(joined(base, separator, name)) == has_parent_spec(base),
{
    lemma_name_is_one_more_component(base, separator, name);
}

/// A root, a prefix and nothing at all have no parent.
pub proof fn lemma_root_has_no_parent(path: PathView, separator: u8)
    requires
        separator == 47 || (separator == 92 && path.syntax == Syntax::Windows),
        prefix_end(path) <= path.bytes.len(),
        path.bytes.len() <= prefix_end(path) + 1,
        path.bytes.len() == prefix_end(path) + 1 ==> path.bytes.last() == separator,
    ensures
        !has_parent_spec(path),
{
    let none = Seq::<u8>::empty();
    let is_written = path.bytes.len() == prefix_end(path) + 1;
    assert(path.bytes.skip(prefix_end(path) as int) =~= if is_written {
        seq![separator] + none
    } else {
        none
    });
    lemma_first_components(path, is_written, separator, none);
}

/// A path lies under another if and only if its components are those of the other, and
/// perhaps more.
pub proof fn lemma_under_is_more_components(path: PathView, base: PathView)
    ensures
        is_under(path, base) <==> exists|more: Seq<ComponentView>|
            components(path) == #[trigger] (components(base) + more),
{
    let n = components(base).len() as int;
    if is_under(path, base) {
        assert(components(path) =~= components(base) + components(path).skip(n));
    }
    if exists|more: Seq<ComponentView>|
        components(path) == #[trigger] (components(base) + more) {
        let more = choose|more: Seq<ComponentView>|
            components(path) == #[trigger] (components(base) + more);
        assert((components(base) + more).take(n) =~= components(base));
    }
}

/// Past the components of a text, and a separator, is what follows.
proof fn lemma_tail_of_joined(
    verbatim: bool,
    separators: Separators,
    left: Seq<u8>,
    byte: u8,
    right: Seq<u8>,
)
    requires
        separates(separators, byte),
        piece_component(verbatim, before_separator(separators, right)).len() > 0,
    ensures
        tail_after(
            verbatim,
            separators,
            left.push(byte) + right,
            name_components(verbatim, separators, left).len(),
        ) == right,
    decreases left.len(),
{
    let text = left.push(byte) + right;
    let first = before_separator(separators, left);
    let rest = after_separator(separators, left);
    let n = first.len() as int;
    lemma_before_separator(separators, left);
    lemma_before_separator(separators, text);
    lemma_before_separator(separators, right);
    lemma_name_components_front(verbatim, separators, left);
    let m = before_separator(separators, text).len() as int;
    assert(text[left.len() as int] == byte);
    assert(m == n) by {
        if m < n {
            assert(text[m] == left[m]);
        } else if m > n {
            if n < left.len() {
                assert(text[n] == left[n]);
            }
            assert(separates(separators, text[n]));
        }
    }
    assert(before_separator(separators, text) =~= first);
    assert(right.len() > 0) by {
        if right.len() == 0 {
            assert(before_separator(separators, right) =~= Seq::<u8>::empty());
        }
    }
    assert(tail_after(verbatim, separators, right, 0) == right);
    if n < left.len() {
        assert(after_separator(separators, text) =~= rest.push(byte) + right);
        lemma_tail_of_joined(verbatim, separators, rest, byte, right);
    } else {
        assert(first =~= left);
        assert(rest =~= Seq::<u8>::empty());
        lemma_one_empty_piece(verbatim, separators);
        assert(after_separator(separators, text) =~= right);
    }
}

proof fn lemma_one_empty_piece(verbatim: bool, separators: Separators)
    ensures
        name_components(verbatim, separators, Seq::empty()).len() == 0,
{
    let none = Seq::<u8>::empty();
    lemma_one_piece(verbatim, separators, none);
}

/// What stands after a base and a separator is, as it is written, the path relative to
/// the base, where it begins and ends with a name that counts.
pub proof fn lemma_rest_is_relative_path(base: PathView, separator: u8, rest: Seq<u8>)
    requires
        can_follow(base, separator, rest),
        prefix_of(base) is Some ==> components(base).len() >= 2,
        is_first_name(separators_of(base), rest),
        is_last_name(separators_of(base), rest),
    ensures
        is_under(joined(base, separator, rest), base),
        relative_to(joined(base, separator, rest), base) == (PathView {
            syntax: base.syntax,
            bytes: rest,
        }),
{
    let path = joined(base, separator, rest);
    let verbatim = reads_verbatim(base);
    let separators = separators_of(base);
    let names = names_of(base);
    lemma_names_of_joined(base, separator, rest);
    lemma_components_of_joined(base, separator, rest);
    let n = components(base).len() as int;
    assert(components(path).take(n) =~= components(base));
    let k = choose|k: int| #[trigger] is_name(separators, rest, 0, k);
    let first = before_separator(separators, rest);
    lemma_before_separator(separators, rest);
    let m = first.len() as int;
    assert(m == k) by {
        if m < k {
            assert(!separates(separators, rest[m]));
        } else if m > k {
            assert(!separates(separators, rest[k]));
        }
    }
    assert(first =~= rest.subrange(0, k));
    lemma_name_counts(verbatim, first);
    lemma_tail_of_joined(verbatim, separators, names, separator, rest);
    let i = choose|i: int| #[trigger] is_name(separators, rest, i, rest.len() as int);
    lemma_last_piece(separators, rest, i);
    assert(rest.skip(i) =~= rest.subrange(i, rest.len() as int));
    lemma_name_counts(verbatim, rest.skip(i));
    assert(trim_end(verbatim, separators, rest, 0) == rest);
    let lead = leading_of(base).len();
    assert(components(base).len() == lead + name_components(verbatim, separators, names).len());
    if n == 0 {
        assert(prefix_of(base) is None);
        lemma_some_component(base);
    }
}

/// Whether the bytes from `i` to `j` are a name that counts, between separators or
/// ends: neither nothing nor `.`.
pub open spec fn is_name(separators: Separators, text: Seq<u8>, i: int, j: int) -> bool {
    &&& 0 <= i < j <= text.len()
    &&& i == 0 || separates(separators, text[i - 1])
    &&& j == text.len() || separates(separators, text[j])
    &&& forall|k: int| i <= k < j ==> !separates(separators, #[trigger] text[k])
    &&& text.subrange(i, j) != seq![46u8]
}

/// Whether a text begins with a name that counts.
pub open spec fn is_first_name(separators: Separators, text: Seq<u8>) -> bool {
    exists|k: int| #[trigger] is_name(separators, text, 0, k)
}

/// Whether a text ends with a name that counts.
pub open spec fn is_last_name(separators: Separators, text: Seq<u8>) -> bool {
    exists|i: int| #[trigger] is_name(separators, text, i, text.len() as int)
}

proof fn lemma_name_counts(verbatim: bool, name: Seq<u8>)
    requires
        name.len() > 0,
        name != seq![46u8],
    ensures
        piece_component(verbatim, name).len() == 1,
{
    assert(name != Seq::<u8>::empty());
}

/// A path without a prefix that is not empty has a component.
proof fn lemma_some_component(path: PathView)
    requires
        prefix_of(path) is None,
        path.bytes.len() > 0,
    ensures
        components(path).len() > 0,
{
    let separators = separators_of(path);
    let body = body_of(path);
    assert(body =~= path.bytes);
    if !is_rooted(path) {
        lemma_first_piece(separators, body);
        lemma_before_separator(separators, body);
        lemma_name_components_front(false, separators, body);
        let first = before_separator(separators, body);
        if first.len() == 0 {
            assert(separates(separators, body[0]));
        } else if first == seq![46u8] {
            assert(leading_of(path).len() == 1);
        } else {
            lemma_name_counts(false, first);
        }
    }
}

/// Where one name stands after the prefix, and perhaps the root, it is the file name,
/// and the path has a parent, unless it is `.` or `..` or nothing.
pub proof fn lemma_first_name_is_file_name(
    path: PathView,
    is_written: bool,
    separator: u8,
    name: Seq<u8>,
)
    requires
        separator == 47 || (separator == 92 && path.syntax == Syntax::Windows),
        is_unseparated(name),
        path.bytes.skip(prefix_end(path) as int) == (if is_written {
            seq![separator] + name
        } else {
            name
        }),
    ensures
        name.len() == 0 || name == seq![46u8] || name == seq![46u8, 46u8] ==> file_name_of(
            path,
        ) is None,
        !(name.len() == 0 || name == seq![46u8] || name == seq![46u8, 46u8]) ==> file_name_of(path)
            == Some(name),
        name.len() > 0 && name != seq![46u8] ==> has_parent_spec(path),
        name.len() == 0 ==> !has_parent_spec(path),
{
    lemma_first_components(path, is_written, separator, name);
}

/// A path relative to a base depends on the components of the base alone, not on how
/// they are written.
pub proof fn lemma_relative_to_same_components(path: PathView, a: PathView, b: PathView)
    requires
        components(a) == components(b),
    ensures
        is_under(path, a) == is_under(path, b),
        relative_to(path, a) == relative_to(path, b),
{
}

} // verus!
