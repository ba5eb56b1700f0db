//! What holds of paths.

use vstd::prelude::*;
use vstd::utf8::{
    is_char_boundary_iff_not_is_continuation_byte, is_char_boundary_start_end_of_seq,
    pop_first_scalar, valid_utf8, valid_utf8_split,
};

use crate::path::{
    after_separator, before_separator, below_root, begins_verbatim, begins_with_drive,
    begins_with_two, begins_with_unc, body_of, components, dot_len, file_name_of, has_root,
    is_rooted, is_under, leading_component, leading_of, lemma_before_separator,
    lemma_first_piece, lemma_first_piece_is_dot, lemma_last_piece, lemma_pieces_nonempty,
    name_components, names_of, parts_below, piece_component, piece_components, pieces,
    prefix_end, prefix_len, prefix_of, reads_verbatim, relative_to, separates, separators_in,
    separators_of, share_len, tail_after, trim_end, windows_prefix, without_last, ComponentView,
    PathView, Prefix, Separators, Syntax, BACKSLASH, COLON, DOT,
};

verus! {

/// The first piece of a text, and the pieces after it.
proof fn lemma_pieces_front(separators: Separators, text: Seq<u8>)
    requires
        before_separator(separators, text).len() < text.len(),
    ensures
        pieces(separators, text) == seq![before_separator(separators, text)] + pieces(
            separators,
            after_separator(separators, text),
        ),
    decreases text.len(),
{
    lemma_before_separator(separators, text);
    let first = before_separator(separators, text);
    let n = first.len() as int;
    let rest = after_separator(separators, text);
    let before = text.drop_last();
    let empty = Seq::<u8>::empty();
    if n == text.len() - 1 {
        assert forall|i: int| 0 <= i < before.len() implies !separates(
            separators,
            #[trigger] before[i],
        ) by {
            assert(before[i] == text[i]);
        }
        lemma_last_piece(separators, before, 0);
        assert(before =~= first);
        assert(rest =~= empty);
        assert(pieces(separators, text) =~= seq![first] + seq![empty]);
    } else {
        lemma_before_separator(separators, before);
        let m = before_separator(separators, before).len() as int;
        assert(m == n) by {
            if m < n {
                assert(before[m] == text[m]);
            } else if m > n {
                assert(before[n] == text[n]);
            }
        }
        assert(before.take(n) =~= text.take(n));
        lemma_pieces_front(separators, before);
        assert(after_separator(separators, before) =~= rest.drop_last());
        assert(rest.last() == text.last());
        lemma_pieces_nonempty(separators, rest.drop_last());
        assert(pieces(separators, text) =~= seq![first] + pieces(separators, rest));
    }
}

/// The components of a piece and of those after it.
pub(crate) proof fn lemma_piece_components_front(verbatim: bool, piece: Seq<u8>, rest: Seq<Seq<u8>>)
    ensures
        piece_components(verbatim, seq![piece] + rest) == piece_component(verbatim, piece)
            + piece_components(verbatim, rest),
    decreases rest.len(),
{
    let all = seq![piece] + rest;
    let none = Seq::<Seq<u8>>::empty();
    assert(piece_components(verbatim, none) =~= Seq::<ComponentView>::empty());
    if rest.len() == 0 {
        assert(rest =~= none);
        assert(all.drop_last() =~= none);
        assert(all.last() == piece);
        assert(piece_components(verbatim, all) =~= piece_component(verbatim, piece)
            + piece_components(verbatim, rest));
    } else {
        lemma_piece_components_front(verbatim, piece, rest.drop_last());
        assert(all.drop_last() =~= seq![piece] + rest.drop_last());
        assert(all.last() == rest.last());
        assert(piece_components(verbatim, all) =~= piece_component(verbatim, piece)
            + piece_components(verbatim, rest));
    }
}

/// The components of a text are those of its first piece and of what follows.
pub(crate) proof fn lemma_name_components_front(verbatim: bool, separators: Separators, text: Seq<u8>)
    ensures
        name_components(verbatim, separators, text) == piece_component(
            verbatim,
            before_separator(separators, text),
        ) + name_components(verbatim, separators, after_separator(separators, text)),
{
    let first = before_separator(separators, text);
    let rest = after_separator(separators, text);
    lemma_before_separator(separators, text);
    if first.len() < text.len() {
        lemma_pieces_front(separators, text);
        lemma_piece_components_front(verbatim, first, pieces(separators, rest));
    } else {
        assert(first =~= text);
        lemma_last_piece(separators, text, 0);
        let none = Seq::<Seq<u8>>::empty();
        lemma_piece_components_front(verbatim, text, none);
        assert(seq![text] + none =~= seq![text]);
        let empty = Seq::<u8>::empty();
        assert(rest =~= empty);
        assert(pieces(separators, empty) =~= seq![empty] + none);
        lemma_piece_components_front(verbatim, empty, none);
        assert(name_components(verbatim, separators, rest) =~= Seq::<ComponentView>::empty());
        assert(name_components(verbatim, separators, text) =~= piece_component(verbatim, first)
            + name_components(verbatim, separators, rest));
    }
}

/// What is left after `n` components has the other components, and begins with one
/// of them.
proof fn lemma_tail_components(verbatim: bool, separators: Separators, text: Seq<u8>, n: nat)
    requires
        n <= name_components(verbatim, separators, text).len(),
    ensures
        ({
            let tail = tail_after(verbatim, separators, text, n);
            &&& name_components(verbatim, separators, tail) == name_components(
                verbatim,
                separators,
                text,
            ).skip(n as int)
            &&& tail.len() > 0 ==> piece_component(
                verbatim,
                before_separator(separators, tail),
            ).len() > 0
        }),
    decreases text.len(),
{
    let first = before_separator(separators, text);
    let rest = after_separator(separators, text);
    let all = name_components(verbatim, separators, text);
    let others = name_components(verbatim, separators, rest);
    let own = piece_component(verbatim, first);
    lemma_name_components_front(verbatim, separators, text);
    if text.len() == 0 {
        assert(first =~= Seq::<u8>::empty());
        assert(rest =~= text);
        assert(all.len() == own.len() + others.len());
        assert(pieces(separators, text) =~= seq![Seq::<u8>::empty()]);
        let none = Seq::<Seq<u8>>::empty();
        assert(seq![Seq::<u8>::empty()] =~= seq![Seq::<u8>::empty()] + none);
        lemma_piece_components_front(verbatim, Seq::<u8>::empty(), none);
        assert(piece_components(verbatim, none) =~= Seq::<ComponentView>::empty());
        assert(all =~= Seq::<ComponentView>::empty());
        assert(all.skip(n as int) =~= all);
    } else if own.len() == 0 {
        assert(all =~= others);
        lemma_tail_components(verbatim, separators, rest, n);
    } else if n == 0 {
        assert(all.skip(0) =~= all);
    } else {
        assert(own.len() == 1);
        assert(all.skip(n as int) =~= others.skip(n - 1));
        lemma_tail_components(verbatim, separators, rest, (n - 1) as nat);
    }
}

/// Whether `text` ends at `end` or has a separator there.
spec fn ends_piece(separators: Separators, text: Seq<u8>, end: int) -> bool {
    0 <= end <= text.len() && (end == text.len() || end == 0 || separates(separators, text[end]))
}

/// The place after the last separator.
proof fn lemma_last_separator(separators: Separators, text: Seq<u8>) -> (k: int)
    ensures
        0 <= k <= text.len(),
        k == 0 || separates(separators, text[k - 1]),
        forall|i: int| k <= i < text.len() ==> !separates(separators, #[trigger] text[i]),
    decreases text.len(),
{
    if text.len() == 0 || separates(separators, text.last()) {
        text.len() as int
    } else {
        let k = lemma_last_separator(separators, text.drop_last());
        assert forall|i: int| k <= i < text.len() implies !separates(
            separators,
            #[trigger] text[i],
        ) by {
            if i < text.len() - 1 {
                assert(text.drop_last()[i] == text[i]);
            }
        }
        assert(k > 0 ==> text.drop_last()[k - 1] == text[k - 1]);
        k
    }
}

/// Without the pieces at its end that stand for nothing, a text is the beginning of
/// itself up to the end of a piece, and has the same components.
proof fn lemma_trim_components(verbatim: bool, separators: Separators, text: Seq<u8>, floor: nat)
    ensures
        ({
            let kept = trim_end(verbatim, separators, text, floor);
            &&& kept.len() <= text.len()
            &&& kept == text.take(kept.len() as int)
            &&& ends_piece(separators, text, kept.len() as int)
            &&& name_components(verbatim, separators, kept) == name_components(
                verbatim,
                separators,
                text,
            )
            &&& kept.len() > floor ==> piece_component(
                verbatim,
                pieces(separators, kept).last(),
            ).len() > 0
        }),
    decreases text.len(),
{
    let last = pieces(separators, text).last();
    if text.len() > floor && piece_component(verbatim, last).len() == 0 {
        let k = lemma_last_separator(separators, text);
        lemma_last_piece(separators, text, k);
        lemma_pieces_nonempty(separators, text);
        let shorter = without_last(separators, text);
        let all = pieces(separators, text);
        if k > 0 {
            assert(shorter =~= text.take(k - 1));
            assert(piece_components(verbatim, all) =~= piece_components(
                verbatim,
                all.drop_last(),
            ));
        } else {
            let empty = Seq::<u8>::empty();
            let none = Seq::<Seq<u8>>::empty();
            assert(shorter =~= empty);
            assert(pieces(separators, empty) =~= seq![empty] + none);
            assert(all =~= seq![text] + none);
            lemma_piece_components_front(verbatim, empty, none);
            lemma_piece_components_front(verbatim, text, none);
            assert(text.skip(0) =~= text);
            assert(name_components(verbatim, separators, shorter) =~= name_components(
                verbatim,
                separators,
                text,
            ));
        }
        lemma_trim_components(verbatim, separators, shorter, floor);
        let kept = trim_end(verbatim, separators, shorter, floor);
        let n = kept.len() as int;
        assert(shorter.take(n) =~= text.take(n));
        assert(n < shorter.len() ==> shorter[n] == text[n]);
    } else {
        assert(text.take(text.len() as int) =~= text);
    }
}

/// Where a text begins with a lone `.`, so does what is left of it.
proof fn lemma_trim_keeps_dot(verbatim: bool, separators: Separators, text: Seq<u8>)
    requires
        pieces(separators, text)[0] == seq![DOT],
    ensures
        pieces(separators, trim_end(verbatim, separators, text, 1))[0] == seq![DOT],
    decreases text.len(),
{
    lemma_first_piece_is_dot(separators, text);
    let last = pieces(separators, text).last();
    if text.len() > 1 && piece_component(verbatim, last).len() == 0 {
        let k = lemma_last_separator(separators, text);
        lemma_last_piece(separators, text, k);
        let shorter = without_last(separators, text);
        assert(k >= 2) by {
            if k < 2 {
                assert(separates(separators, text[1]));
                assert(!separates(separators, DOT));
            }
        }
        assert(shorter =~= text.take(k - 1));
        assert(shorter[0] == text[0]);
        assert(shorter.len() > 1 ==> shorter[1] == text[1]);
        lemma_first_piece_is_dot(separators, shorter);
        lemma_trim_keeps_dot(verbatim, separators, shorter);
    }
}

/// The components of a path without a prefix.
proof fn lemma_components_without_prefix(path: PathView)
    requires
        prefix_of(path) is None,
    ensures
        components(path) == leading_component(path.syntax, path.bytes) + name_components(
            false,
            separators_in(path.syntax),
            below_root(path.syntax, path.bytes),
        ),
{
    assert(body_of(path) =~= path.bytes);
}

/// Whether `text` has the same components where it is not verbatim.
spec fn reads_usually(
    syntax: Syntax,
    verbatim: bool,
    separators: Separators,
    text: Seq<u8>,
) -> bool {
    if verbatim {
        &&& syntax == Syntax::Windows
        &&& separators == Separators::Backslash
        &&& are_plain_names(name_components(verbatim, separators, text))
    } else {
        separators == separators_in(syntax)
    }
}

/// Whether components are `..` and names that hold no separator of Windows.
pub open spec fn are_plain_names(parts: Seq<ComponentView>) -> bool {
    forall|i: int| 0 <= i < parts.len() ==> is_plain_name(#[trigger] parts[i])
}

/// Whether a component is `..` or a name that holds no separator of Windows.
pub open spec fn is_plain_name(part: ComponentView) -> bool {
    match part {
        ComponentView::Parent => true,
        ComponentView::Normal(name) => is_separator_free(name),
        _ => false,
    }
}

/// Whether `bytes` holds no separator of Windows.
pub open spec fn is_separator_free(bytes: Seq<u8>) -> bool {
    forall|i: int| 0 <= i < bytes.len() ==> !separates(Separators::Both, #[trigger] bytes[i])
}

/// Whether a piece is empty, or stands for a plain name.
spec fn is_plain_piece(piece: Seq<u8>) -> bool {
    piece != seq![DOT] && is_separator_free(piece)
}

proof fn lemma_plain_pieces(parts: Seq<Seq<u8>>)
    requires
        are_plain_names(piece_components(true, parts)),
    ensures
        forall|k: int| 0 <= k < parts.len() ==> is_plain_piece(#[trigger] parts[k]),
        piece_components(false, parts) == piece_components(true, parts),
    decreases parts.len(),
{
    if parts.len() > 0 {
        let init = parts.drop_last();
        let last = parts.last();
        let all = piece_components(true, parts);
        let before = piece_components(true, init);
        let own = piece_component(true, last);
        assert forall|i: int| 0 <= i < before.len() implies is_plain_name(
            #[trigger] before[i],
        ) by {
            assert(all[i] == before[i]);
        }
        lemma_plain_pieces(init);
        if own.len() > 0 {
            assert(all[before.len() as int] == own[0]);
            assert(is_plain_name(all[before.len() as int]));
        }
        assert(seq![DOT].len() == 1);
        if last == seq![DOT, DOT] {
            assert(last.len() == 2 && last[0] == DOT && last[1] == DOT);
            assert(is_separator_free(last));
        } else if last == seq![DOT] {
            assert(own[0] is Current);
        } else if last.len() > 0 {
            assert(own[0] == ComponentView::Normal(last));
        }
        assert(is_plain_piece(last));
        assert forall|k: int| 0 <= k < parts.len() implies is_plain_piece(#[trigger] parts[k]) by {
            if k < parts.len() - 1 {
                assert(init[k] == parts[k]);
            }
        }
    }
}

/// Plain pieces lie between the separators of Windows as well.
proof fn lemma_pieces_alike(text: Seq<u8>)
    requires
        forall|k: int|
            0 <= k < pieces(Separators::Backslash, text).len() ==> is_separator_free(
                #[trigger] pieces(Separators::Backslash, text)[k],
            ),
    ensures
        pieces(Separators::Both, text) == pieces(Separators::Backslash, text),
    decreases text.len(),
{
    if text.len() > 0 {
        let before = text.drop_last();
        let all = pieces(Separators::Backslash, text);
        let kept = pieces(Separators::Backslash, before);
        lemma_pieces_nonempty(Separators::Backslash, before);
        assert forall|k: int| 0 <= k < kept.len() implies is_separator_free(
            #[trigger] kept[k],
        ) by {
            assert(is_separator_free(all[k]));
            assert forall|i: int| 0 <= i < kept[k].len() implies !separates(
                Separators::Both,
                #[trigger] kept[k][i],
            ) by {
                assert(all[k][i] == kept[k][i]);
            }
        }
        lemma_pieces_alike(before);
        if text.last() != BACKSLASH {
            let k = all.len() - 1;
            assert(is_separator_free(all[k]));
            assert(all[k][all[k].len() - 1] == text.last());
        }
    }
}

/// A text that reads as usual has the usual pieces and components; where it is
/// verbatim, it does not begin with a root or a lone `.`.
proof fn lemma_usual_components(
    syntax: Syntax,
    verbatim: bool,
    separators: Separators,
    text: Seq<u8>,
)
    requires
        reads_usually(syntax, verbatim, separators, text),
    ensures
        pieces(separators_in(syntax), text) == pieces(separators, text),
        name_components(false, separators_in(syntax), text) == name_components(
            verbatim,
            separators,
            text,
        ),
        verbatim ==> pieces(separators, text)[0] != seq![DOT],
        verbatim && before_separator(separators, text).len() > 0 ==> !has_root(syntax, text),
{
    if verbatim {
        let parts = pieces(separators, text);
        lemma_plain_pieces(parts);
        assert forall|k: int| 0 <= k < parts.len() implies is_separator_free(
            #[trigger] parts[k],
        ) by {
            assert(is_plain_piece(parts[k]));
        }
        lemma_pieces_alike(text);
        lemma_first_piece(separators, text);
        lemma_before_separator(separators, text);
        assert(is_plain_piece(parts[0]));
        if parts[0].len() > 0 {
            assert(!separates(Separators::Both, parts[0][0]));
            assert(parts[0][0] == text[0]);
        }
    }
}

/// A root and what is left of the names below it have these components.
proof fn lemma_components_of_rooted(
    syntax: Syntax,
    root: u8,
    verbatim: bool,
    separators: Separators,
    names: Seq<u8>,
)
    requires
        separates(separators_in(syntax), root),
        prefix_of(
            PathView { syntax, bytes: seq![root] + trim_end(verbatim, separators, names, 0) },
        ) is None,
        reads_usually(syntax, verbatim, separators, names),
    ensures
        components(
            PathView { syntax, bytes: seq![root] + trim_end(verbatim, separators, names, 0) },
        ) == seq![ComponentView::Root] + name_components(verbatim, separators, names),
{
    let kept = trim_end(verbatim, separators, names, 0);
    let bytes = seq![root] + kept;
    lemma_trim_components(verbatim, separators, names, 0);
    lemma_usual_components(syntax, verbatim, separators, kept);
    lemma_components_without_prefix(PathView { syntax, bytes });
    assert(bytes.skip(1) =~= kept);
}

/// What is left of names that begin with neither a root nor a lone `.` has these
/// components.
proof fn lemma_components_of_names(
    syntax: Syntax,
    verbatim: bool,
    separators: Separators,
    names: Seq<u8>,
)
    requires
        reads_usually(syntax, verbatim, separators, names),
        !has_root(syntax, names),
        pieces(separators, names)[0] != seq![DOT],
        prefix_of(PathView { syntax, bytes: trim_end(verbatim, separators, names, 0) }) is None,
    ensures
        components(PathView { syntax, bytes: trim_end(verbatim, separators, names, 0) })
            == name_components(verbatim, separators, names),
{
    let kept = trim_end(verbatim, separators, names, 0);
    lemma_trim_components(verbatim, separators, names, 0);
    lemma_usual_components(syntax, verbatim, separators, kept);
    lemma_components_without_prefix(PathView { syntax, bytes: kept });
    assert(kept.len() > 0 ==> kept[0] == names[0]);
    assert(kept.len() > 1 ==> kept[1] == names[1]);
    lemma_first_piece_is_dot(separators, kept);
    lemma_first_piece_is_dot(separators, names);
    if pieces(separators, kept)[0] == seq![DOT] {
        assert(kept.len() == 1);
        assert(kept =~= seq![DOT]);
        assert(!separates(separators, DOT));
        lemma_last_piece(separators, kept, 0);
        assert(kept.skip(0) =~= kept);
        assert(piece_component(verbatim, kept).len() > 0);
        assert(false);
    }
    assert(leading_component(syntax, kept) =~= Seq::<ComponentView>::empty());
    assert(components(PathView { syntax, bytes: kept }) =~= name_components(
        verbatim,
        separators,
        names,
    ));
}

/// A name is no prefix.
proof fn lemma_names_are_no_prefix(verbatim: bool, parts: Seq<Seq<u8>>, i: int)
    requires
        0 <= i < piece_components(verbatim, parts).len(),
    ensures
        !(piece_components(verbatim, parts)[i] is Prefix),
    decreases parts.len(),
{
    let before = piece_components(verbatim, parts.drop_last());
    if i < before.len() {
        lemma_names_are_no_prefix(verbatim, parts.drop_last(), i);
    } else {
        assert(piece_components(verbatim, parts)[i] == piece_component(verbatim, parts.last())[i
            - before.len()]);
    }
}

/// A path whose first component is a prefix has that prefix.
proof fn lemma_first_component_is_prefix(path: PathView, prefix: Prefix<Seq<u8>>)
    requires
        components(path).len() > 0,
        components(path)[0] == ComponentView::Prefix(prefix),
    ensures
        prefix_of(path) == Some(prefix),
        components(path).len() >= leading_of(path).len(),
{
    if prefix_of(path) is None {
        let leading = leading_of(path);
        let parts = pieces(separators_of(path), names_of(path));
        if leading.len() == 0 {
            assert(components(path)[0] == piece_components(false, parts)[0]);
            lemma_names_are_no_prefix(false, parts, 0);
        } else {
            assert(components(path)[0] == leading[0]);
        }
    } else {
        assert(components(path)[0] == leading_of(path)[0]);
    }
}

/// Whether what lies below a base reads on its own as it does after the base. It
/// always does on Unix. On Windows it may begin like a prefix, as `C:a` does; it may
/// have been told from a drive by its `.`; and in a verbatim path it may hold a `/`
/// or be a `.`.
pub open spec fn reads_alike(path: PathView, base: PathView) -> bool {
    let n = components(base).len();
    let lead = leading_of(path).len();
    path.syntax == Syntax::Unix || {
        &&& prefix_of(relative_to(path, base)) is None
        &&& prefix_of(path) is Some ==> n > 0
        &&& prefix_of(path) is Some && n == 1 ==> dot_len(path) == 0
        &&& reads_verbatim(path) ==> are_plain_names(
            name_components(true, Separators::Backslash, names_of(path)).skip(
                if n <= lead {
                    0
                } else {
                    n - lead
                },
            ),
        )
    }
}

/// What lies below a base has the components of the path below those of the base.
proof fn lemma_components_below(path: PathView, base: PathView)
    requires
        is_under(path, base),
        reads_alike(path, base),
    ensures
        components(relative_to(path, base)) == parts_below(path, base),
{
    let n = components(base).len();
    let syntax = path.syntax;
    let verbatim = reads_verbatim(path);
    let separators = separators_of(path);
    let names = names_of(path);
    let body = body_of(path);
    let leading = leading_of(path);
    let lead = leading.len();
    let all = name_components(verbatim, separators, names);
    let relative = relative_to(path, base);
    assert(prefix_of(relative) is None);
    if prefix_of(path) is None {
        assert(body =~= path.bytes);
    } else {
        lemma_prefix_end(path.bytes);
    }
    if n == 0 {
        assert(parts_below(path, base) =~= components(path));
        if is_rooted(path) {
            assert(path.bytes.take(1) =~= seq![path.bytes[0]]);
            lemma_components_of_rooted(syntax, path.bytes[0], verbatim, separators, names);
        } else if dot_len(path) == 0 {
            assert(relative.bytes =~= trim_end(verbatim, separators, names, 0));
            lemma_components_of_names(syntax, verbatim, separators, names);
            assert(leading =~= Seq::<ComponentView>::empty());
            assert(components(path) =~= all);
        } else {
            let kept = trim_end(verbatim, separators, names, 1);
            assert(relative.bytes =~= kept);
            lemma_trim_keeps_dot(verbatim, separators, names);
            lemma_trim_components(verbatim, separators, names, 1);
            lemma_components_without_prefix(relative);
            lemma_first_piece_is_dot(separators, kept);
            assert(!has_root(syntax, kept));
            assert(leading =~= seq![ComponentView::Current]);
        }
    } else if n < lead || (n == lead && prefix_of(path) is Some && lead == 1) {
        assert(n == 1);
        assert(prefix_of(path) is Some);
        assert(all.skip(0) =~= all);
        if is_rooted(path) {
            assert(body.take(1) =~= seq![body[0]]);
            lemma_components_of_rooted(syntax, body[0], verbatim, separators, names);
            assert(parts_below(path, base) =~= seq![ComponentView::Root] + all);
        } else {
            if lead == 2 {
                let prefix = prefix_of(path)->0;
                assert(components(path).take(1)[0] == leading[0]);
                assert(components(base)[0] == ComponentView::Prefix(prefix));
                lemma_first_component_is_prefix(base, prefix);
                assert(false);
            }
            assert(relative.bytes =~= trim_end(verbatim, separators, names, 0));
            lemma_components_of_names(syntax, verbatim, separators, names);
            assert(parts_below(path, base) =~= all);
        }
    } else {
        let m = (n - lead) as nat;
        let tail = tail_after(verbatim, separators, names, m);
        assert(components(path).len() == lead + all.len());
        lemma_tail_components(verbatim, separators, names, m);
        assert(parts_below(path, base) =~= all.skip(m as int));
        assert(reads_usually(syntax, verbatim, separators, tail));
        lemma_usual_components(syntax, verbatim, separators, tail);
        lemma_first_piece(separators, tail);
        lemma_before_separator(separators, tail);
        let first = before_separator(separators, tail);
        if tail.len() > 0 {
            assert(first.len() > 0);
            assert(first[0] == tail[0]);
        }
        assert(!has_root(syntax, tail));
        assert(pieces(separators, tail)[0] != seq![DOT]) by {
            if tail.len() == 0 {
                assert(pieces(separators, tail)[0].len() == 0);
                assert(seq![DOT].len() == 1);
            }
        }
        lemma_components_of_names(syntax, verbatim, separators, tail);
    }
}

/// The part of a path below a base, placed after the base, gives the path back,
/// where it reads alike on its own.
pub proof fn lemma_relative_rejoins(path: PathView, base: PathView)
    requires
        is_under(path, base),
        reads_alike(path, base),
    ensures
        components(base) + components(relative_to(path, base)) == components(path),
{
    let n = components(base).len() as int;
    lemma_components_below(path, base);
    assert(components(path).take(n) + components(path).skip(n) =~= components(path));
}

/// Whether the bytes from `i` to `j` are what lies between two separators, or
/// between a separator and an end of the text.
spec fn is_piece(separators: Separators, text: Seq<u8>, i: int, j: int) -> bool {
    &&& 0 <= i <= j <= text.len()
    &&& i == 0 || separates(separators, text[i - 1])
    &&& j == text.len() || separates(separators, text[j])
}

/// Each piece lies between separators or ends; only the last one ends the text.
proof fn lemma_piece_place(separators: Separators, text: Seq<u8>, k: int)
    requires
        0 <= k < pieces(separators, text).len(),
    ensures
        exists|i: int, j: int| #[trigger]
            is_piece(separators, text, i, j) && pieces(separators, text)[k] == text.subrange(i, j)
                && (k == pieces(separators, text).len() - 1 <==> j == text.len()),
    decreases text.len(),
{
    let n = text.len() as int;
    let all = pieces(separators, text);
    if n == 0 {
        assert(is_piece(separators, text, 0, 0));
        assert(all[k] =~= text.subrange(0, 0));
    } else {
        let before = text.drop_last();
        lemma_pieces_nonempty(separators, before);
        let kept = pieces(separators, before);
        let count = kept.len() as int;
        if k < count {
            lemma_piece_place(separators, before, k);
            let (i, j) = choose|i: int, j: int| #[trigger]
                is_piece(separators, before, i, j) && kept[k] == before.subrange(i, j) && (k
                    == count - 1 <==> j == before.len());
            assert(i > 0 ==> text[i - 1] == before[i - 1]);
            assert(j < before.len() ==> text[j] == before[j]);
            if k < count - 1 || separates(separators, text.last()) {
                assert(all[k] == kept[k]);
                assert(is_piece(separators, text, i, j));
                assert(before.subrange(i, j) =~= text.subrange(i, j));
            } else {
                assert(is_piece(separators, text, i, n));
                assert(before.subrange(i, j).push(text.last()) =~= text.subrange(i, n));
            }
        } else {
            assert(is_piece(separators, text, n, n));
            assert(all[k] =~= text.subrange(n, n));
        }
    }
}

/// A name among the components is one of the pieces.
proof fn lemma_name_is_piece(verbatim: bool, parts: Seq<Seq<u8>>, m: int, name: Seq<u8>)
    requires
        0 <= m < piece_components(verbatim, parts).len(),
        piece_components(verbatim, parts)[m] == ComponentView::Normal(name),
    ensures
        name.len() > 0,
        exists|k: int| 0 <= k < parts.len() && #[trigger] parts[k] == name,
    decreases parts.len(),
{
    let before = parts.drop_last();
    let head = piece_components(verbatim, before);
    if m < head.len() {
        lemma_name_is_piece(verbatim, before, m, name);
        let k = choose|k: int| 0 <= k < before.len() && #[trigger] before[k] == name;
        assert(parts[k] == name);
    } else {
        let piece = parts.last();
        assert(piece_components(verbatim, parts)[m] == piece_component(verbatim, piece)[m
            - head.len()]);
        assert(parts[parts.len() - 1] == name);
        assert(name.len() == 0 ==> name =~= Seq::<u8>::empty());
    }
}

/// What lies between bytes below 128 in a text is a text.
proof fn lemma_part_of_text(text: Seq<u8>, i: int, j: int)
    requires
        valid_utf8(text),
        0 <= i <= j <= text.len(),
        i == 0 || text[i - 1] < 128,
        j == text.len() || text[j] < 128,
    ensures
        valid_utf8(text.subrange(i, j)),
{
    if j < text.len() {
        is_char_boundary_iff_not_is_continuation_byte(text, j);
    } else {
        is_char_boundary_start_end_of_seq(text);
    }
    valid_utf8_split(text, j);
    let left = text.subrange(0, j);
    if i > 0 {
        assert(left[i - 1] == text[i - 1]);
        is_char_boundary_iff_not_is_continuation_byte(left, i - 1);
        valid_utf8_split(left, i - 1);
        let right = left.subrange(i - 1, j);
        assert(right[0] == text[i - 1]);
        assert(pop_first_scalar(right) =~= text.subrange(i, j));
    }
}

/// A prefix ends before a separator, after a colon or at the end of the path.
proof fn lemma_prefix_end(path: Seq<u8>)
    ensures
        windows_prefix(path) matches Some(prefix) ==> ({
            let n = prefix_len(prefix) as int;
            &&& 0 < n <= path.len()
            &&& n == path.len() || separates(Separators::Both, path[n]) || path[n - 1] == COLON
        }),
{
    if begins_verbatim(path) {
        let rest = path.skip(4);
        if begins_with_unc(rest) {
            lemma_names_end(Separators::Backslash, path, 8);
        } else {
            lemma_before_separator(Separators::Backslash, rest);
            let n = before_separator(Separators::Backslash, rest).len() as int;
            assert(n < rest.len() ==> rest[n] == path[n + 4]);
            assert(begins_with_drive(rest) ==> path[5] == COLON);
        }
    } else if begins_with_two(path) {
        lemma_names_end(Separators::Both, path, 2);
        if path.len() >= 4 {
            let rest = path.skip(4);
            lemma_before_separator(Separators::Both, rest);
            let n = before_separator(Separators::Both, rest).len() as int;
            assert(n < rest.len() ==> rest[n] == path[n + 4]);
        }
    }
}

/// Two names after each other end before a separator or at the end of the path.
proof fn lemma_names_end(separators: Separators, path: Seq<u8>, start: int)
    requires
        0 <= start <= path.len(),
    ensures
        ({
            let names = path.skip(start);
            let first = before_separator(separators, names);
            let second = before_separator(separators, after_separator(separators, names));
            let n = start + first.len() + share_len(second);
            n <= path.len() && (n == path.len() || separates(separators, path[n]))
        }),
{
    let names = path.skip(start);
    lemma_before_separator(separators, names);
    let n = before_separator(separators, names).len() as int;
    let rest = after_separator(separators, names);
    lemma_before_separator(separators, rest);
    let m = before_separator(separators, rest).len() as int;
    if n < names.len() {
        assert(names[n] == path[start + n]);
        assert(m < rest.len() ==> rest[m] == path[start + n + 1 + m]);
    }
}

/// The last name below the root of a path that is a text is a text.
proof fn lemma_name_below_is_text(
    bytes: Seq<u8>,
    start: int,
    verbatim: bool,
    separators: Separators,
    name: Seq<u8>,
)
    requires
        valid_utf8(bytes),
        0 <= start <= bytes.len(),
        start == 0 || start == bytes.len() || bytes[start - 1] < 128,
        piece_components(verbatim, pieces(separators, bytes.skip(start))).len() > 0,
        piece_components(verbatim, pieces(separators, bytes.skip(start))).last()
            == ComponentView::Normal(name),
    ensures
        valid_utf8(name),
{
    let below = bytes.skip(start);
    let all = pieces(separators, below);
    let m = piece_components(verbatim, all).len() - 1;
    lemma_name_is_piece(verbatim, all, m, name);
    let k = choose|k: int| 0 <= k < all.len() && #[trigger] all[k] == name;
    lemma_piece_place(separators, below, k);
    let (i, j) = choose|i: int, j: int| #[trigger]
        is_piece(separators, below, i, j) && all[k] == below.subrange(i, j) && (k == all.len() - 1
            <==> j == below.len());
    assert(below.subrange(i, j) =~= bytes.subrange(start + i, start + j));
    assert(i > 0 ==> below[i - 1] == bytes[start + i - 1]);
    assert(j < below.len() ==> below[j] == bytes[start + j]);
    lemma_part_of_text(bytes, start + i, start + j);
}

/// The file name of a path that is a text is a text.
pub proof fn lemma_file_name_of_text(path: PathView)
    requires
        valid_utf8(path.bytes),
    ensures
        file_name_of(path) matches Some(name) ==> valid_utf8(name),
{
    if let Some(name) = file_name_of(path) {
        let bytes = path.bytes;
        let end = prefix_end(path) as int;
        let body = body_of(path);
        if prefix_of(path) is Some {
            lemma_prefix_end(bytes);
        }
        let start: int = if is_rooted(path) {
            end + 1
        } else {
            end
        };
        assert(end < bytes.len() ==> body[0] == bytes[end]);
        assert(names_of(path) =~= bytes.skip(start));
        let leading = leading_of(path);
        let names = name_components(reads_verbatim(path), separators_of(path), names_of(path));
        if names.len() == 0 {
            assert(components(path) =~= leading);
        }
        assert(components(path).last() == names.last());
        lemma_name_below_is_text(
            bytes,
            start,
            reads_verbatim(path),
            separators_of(path),
            name,
        );
    }
}

} // verus!
