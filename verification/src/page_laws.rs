//! What a browser finds in the comparison page.

use vstd::prelude::*;
use vstd::utf8::{decode_utf8, valid_utf8};

use crate::component_laws::{
    can_follow, is_unseparated, joined, lemma_last_name_is_file_name,
    lemma_name_alone_is_file_name,
};
use crate::encoding::{
    base64_bytes, base64_text, lemma_base64_has_no_markup, lemma_base64_round_trip,
};
use crate::escape::{
    escaped, lemma_escaped_has_no_markup, lemma_unescape_inverts_escape, unescaped,
};
use crate::page::{
    all_versions, entries_of, entry_of, file_button, file_buttons, file_element, file_elements,
    is_encodable, is_renderable, lemma_occurs_in_mode_controls, lemma_occurs_in_panels,
    lemma_occurs_in_script, lemma_occurs_in_style, mode_controls, occurs, page, page_style,
    panels, previous_text, quote_free, script_display, script_element, script_input,
    script_modes, script_rest, script_selection, shown_path, EntryView, SnapshotVersions,
    VersionsView,
};
use crate::template::{
    CURRENT_PANEL, MODE_BUTTONS, OVERLAY_PANEL, PAGE_COMPARISON, PAGE_FILE_DATA, PAGE_FILE_LIST,
    PAGE_HEADER, PAGE_MODES, PAGE_START, PAGE_STYLE, PAGE_TOOLBAR, PREVIOUS_PANEL,
    SCRIPT_ADVANCES, SCRIPT_BEGINS, SCRIPT_BUTTONS, SCRIPT_CLICKS, SCRIPT_CLOSING,
    SCRIPT_COMPARISON, SCRIPT_CONTROLS, SCRIPT_CURRENT, SCRIPT_ENDS, SCRIPT_ENTER, SCRIPT_FOCUS,
    SCRIPT_IMAGES, SCRIPT_KEYS, SCRIPT_LISTS, SCRIPT_MARKED, SCRIPT_MODES, SCRIPT_MODE_CONTROLS,
    SCRIPT_MOVES, SCRIPT_NEXT, SCRIPT_OLD_IMAGES, SCRIPT_OPENING, SCRIPT_OTHER_IMAGES,
    SCRIPT_OTHER_KEYS, SCRIPT_OVERLAYS, SCRIPT_POINTER, SCRIPT_PRESSES, SCRIPT_PREVIOUS,
    SCRIPT_RANGES, SCRIPT_REFUSED, SCRIPT_REPLY, SCRIPT_REVEALS, SCRIPT_SCROLLS,
    SCRIPT_SELECTED, SCRIPT_SELECTION, SCRIPT_SHOWN_PATH, SCRIPT_SQUASHED, SCRIPT_TAKES,
    SCRIPT_TOGGLES, SCRIPT_VIEWPORTS, STYLE_OVERLAYS, STYLE_PANELS, STYLE_REST, STYLE_STACK,
};
use crate::path::{file_name_of, prefix_of, PathView, Syntax};
use crate::routes::SQUASH_ROUTE;
use crate::text::{
    are_digits, decimal, lemma_decimal_is_read_back, lemma_text_has_no_surrogates,
    lemma_truth_is_read_back, read_decimal, truth, utf8_lossy, without_surrogates,
};

verus! {

/// The element of each file, in the order of the files.
pub open spec fn elements_in_order(versions: Seq<VersionsView>) -> Seq<Seq<char>> {
    Seq::new(versions.len(), |i: int| file_element(entry_of(versions[i])))
}

/// The button of each file, in the order of the files, under its index.
pub open spec fn buttons_in_order(versions: Seq<VersionsView>) -> Seq<Seq<char>> {
    Seq::new(versions.len(), |i: int| file_button(i as nat, entry_of(versions[i])))
}

/// Whether the page of some files is `frame`, which does not depend on them, around
/// what does: the path of the first file in the title and in the header, the number
/// of files, the buttons of the files in their order, the elements of the files in
/// the same order, and whether the first file has a previous version.
pub open spec fn fills(frame: Seq<Seq<char>>, versions: Seq<VersionsView>) -> bool {
    let first = escaped(shown_path(versions[0].path));
    page(entries_of(versions)) == frame[0] + "<title>SVG comparison — "@ + first + "</title>"@
        + frame[1] + r#"<span class="file-count">"#@ + (decimal(versions.len()) + if versions.len()
        == 1 {
        " file"@
    } else {
        " files"@
    }) + "</span>"@ + frame[2] + r#"<nav class="file-list" aria-label="SVG files">"#@
        + buttons_in_order(versions).flatten() + "</nav>"@ + frame[3]
        + r#"<div id="file-data" hidden>"#@ + elements_in_order(versions).flatten() + "</div>"@
        + frame[4] + r#"<div class="path" id="selected-path">"#@ + first + "</div>"@ + frame[5]
        + r#"<div class="mode-switcher" id="mode-switcher" role="group" aria-label="Comparison mode""#@
        + (if versions[0].previous is Some {
        ""@
    } else {
        " hidden"@
    }) + ">"@ + frame[6]
        + r#"<main class="comparison" id="comparison" data-mode="side-by-side" data-has-previous=""#@
        + (if versions[0].previous is Some {
        "true"@
    } else {
        "false"@
    }) + r#"">"#@ + frame[7] + frame[8] + frame[9] + frame[10] + frame[11] + frame[12]
}

/// Whether every page is `frame` around what depends on its files.
pub open spec fn frames_all(frame: Seq<Seq<char>>) -> bool {
    forall|versions: Seq<VersionsView>| versions.len() > 0 ==> #[trigger] fills(frame, versions)
}

/// The fixed parts of the page.
spec fn page_frame() -> Seq<Seq<char>> {
    seq![
        PAGE_START@,
        page_style(),
        PAGE_FILE_LIST@,
        PAGE_FILE_DATA@,
        PAGE_HEADER@,
        PAGE_TOOLBAR@,
        mode_controls(),
        panels(),
        script_element(),
        script_selection(),
        script_display(),
        script_input(),
        script_rest(),
    ]
}

/// The page shows each file once, in the order of the files: the i-th button and the
/// i-th element in the document are those of the i-th file. All else is the same in
/// every page, but for the number of files and the path of the first one, which is
/// selected, with what its having a previous version calls for.
pub proof fn lemma_page_shows_files_in_order()
    ensures
        exists|frame: Seq<Seq<char>>| #[trigger] frames_all(frame),
{
    let frame = page_frame();
    assert forall|versions: Seq<VersionsView>| versions.len() > 0 implies #[trigger] fills(
        frame,
        versions,
    ) by {
        let entries = entries_of(versions);
        lemma_elements_flatten(versions);
        lemma_buttons_flatten(versions);
        assert(entries[0] == entry_of(versions[0]));
        assert(frame[0] == PAGE_START@);
        assert(frame[1] == page_style());
        assert(frame[2] == PAGE_FILE_LIST@);
        assert(frame[3] == PAGE_FILE_DATA@);
        assert(frame[4] == PAGE_HEADER@);
        assert(frame[5] == PAGE_TOOLBAR@);
        assert(frame[6] == mode_controls());
        assert(frame[7] == panels());
        assert(frame[8] == script_element());
        assert(frame[9] == script_selection());
        assert(frame[10] == script_display());
        assert(frame[11] == script_input());
        assert(frame[12] == script_rest());
    }
    assert(frames_all(frame));
}

/// There is no page for no files.
pub proof fn lemma_no_page_for_no_files()
    ensures
        page(entries_of(Seq::empty())).len() == 0,
{
}

proof fn lemma_elements_flatten(versions: Seq<VersionsView>)
    ensures
        file_elements(entries_of(versions)) == elements_in_order(versions).flatten(),
    decreases versions.len(),
{
    let all = elements_in_order(versions);
    if versions.len() > 0 {
        let before = versions.drop_last();
        lemma_elements_flatten(before);
        assert(entries_of(versions).drop_last() =~= entries_of(before));
        assert(all.drop_last() =~= elements_in_order(before));
        all.lemma_flatten_and_flatten_alt_are_equivalent();
        all.drop_last().lemma_flatten_and_flatten_alt_are_equivalent();
    } else {
        assert(file_elements(entries_of(versions)) =~= all.flatten());
    }
}

proof fn lemma_buttons_flatten(versions: Seq<VersionsView>)
    ensures
        file_buttons(entries_of(versions)) == buttons_in_order(versions).flatten(),
    decreases versions.len(),
{
    let all = buttons_in_order(versions);
    if versions.len() > 0 {
        let before = versions.drop_last();
        lemma_buttons_flatten(before);
        assert(entries_of(versions).drop_last() =~= entries_of(before));
        assert(all.drop_last() =~= buttons_in_order(before));
        all.lemma_flatten_and_flatten_alt_are_equivalent();
        all.drop_last().lemma_flatten_and_flatten_alt_are_equivalent();
    } else {
        assert(file_buttons(entries_of(versions)) =~= all.flatten());
    }
}

/// What stands before the first quote.
pub open spec fn before_quote(text: Seq<char>) -> Seq<char>
    decreases text.len(),
{
    if text.len() == 0 || text[0] == '"' {
        Seq::empty()
    } else {
        seq![text[0]] + before_quote(text.skip(1))
    }
}

/// What stands between the quotes of a text, before the first and after the last: in
/// an element, what is not quoted and the quoted values by turns.
#[verifier::opaque]
pub open spec fn fields(text: Seq<char>) -> Seq<Seq<char>>
    decreases text.len(),
{
    let first = before_quote(text);
    if first.len() < text.len() {
        seq![first] + fields(text.skip(first.len() as int + 1))
    } else {
        seq![text]
    }
}

proof fn lemma_before_quote(x: Seq<char>, rest: Seq<char>)
    requires
        quote_free(x),
        rest.len() > 0 ==> rest[0] == '"',
    ensures
        before_quote(x + rest) == x,
    decreases x.len(),
{
    let all = x + rest;
    if x.len() == 0 {
        assert(all =~= rest);
        assert(before_quote(all) =~= x);
    } else {
        assert(all[0] == x[0]);
        assert(all.skip(1) =~= x.skip(1) + rest);
        assert forall|i: int| 0 <= i < x.skip(1).len() implies x.skip(1)[i] != '"' by {
            assert(x.skip(1)[i] == x[i + 1]);
        }
        lemma_before_quote(x.skip(1), rest);
        assert(seq![x[0]] + x.skip(1) =~= x);
    }
}

/// The fields of a text, a quote and more.
proof fn lemma_fields(x: Seq<char>, rest: Seq<char>)
    requires
        quote_free(x),
    ensures
        fields(x + seq!['"'] + rest) == seq![x] + fields(rest),
        fields(x) == seq![x],
{
    reveal(fields);
    let all = x + seq!['"'] + rest;
    assert(all =~= x + (seq!['"'] + rest));
    lemma_before_quote(x, seq!['"'] + rest);
    assert(all.skip(x.len() as int + 1) =~= rest);
    lemma_before_quote(x, Seq::empty());
    assert(x + Seq::<char>::empty() =~= x);
}

/// Values without quotes, in the quotes of five texts.
proof fn lemma_four_values(
    a: Seq<char>,
    v: Seq<char>,
    b: Seq<char>,
    w: Seq<char>,
    c: Seq<char>,
    x: Seq<char>,
    d: Seq<char>,
    y: Seq<char>,
    e: Seq<char>,
)
    requires
        quote_free(a) && quote_free(b) && quote_free(c) && quote_free(d) && quote_free(e),
        quote_free(v) && quote_free(w) && quote_free(x) && quote_free(y),
    ensures
        ({
            let q = seq!['"'];
            fields(a + q + v + q + b + q + w + q + c + q + x + q + d + q + y + q + e) == seq![
                a,
                v,
                b,
                w,
                c,
                x,
                d,
                y,
                e,
            ]
        }),
{
    let q = seq!['"'];
    let r8 = e;
    let r7 = y + q + r8;
    let r6 = d + q + r7;
    let r5 = x + q + r6;
    let r4 = c + q + r5;
    let r3 = w + q + r4;
    let r2 = b + q + r3;
    let r1 = v + q + r2;
    let r0 = a + q + r1;
    lemma_fields(e, Seq::empty());
    lemma_fields(y, r8);
    lemma_fields(d, r7);
    lemma_fields(x, r6);
    lemma_fields(c, r5);
    lemma_fields(w, r4);
    lemma_fields(b, r3);
    lemma_fields(v, r2);
    lemma_fields(a, r1);
    let p1 = a + q + v;
    let p2 = p1 + q + b;
    let p3 = p2 + q + w;
    let p4 = p3 + q + c;
    let p5 = p4 + q + x;
    let p6 = p5 + q + d;
    lemma_quote_between(a, v, r2);
    lemma_quote_between(p1, b, r3);
    lemma_quote_between(p2, w, r4);
    lemma_quote_between(p3, c, r5);
    lemma_quote_between(p4, x, r6);
    lemma_quote_between(p5, d, r7);
    lemma_quote_between(p6, y, r8);
    lemma_nine(a, v, b, w, c, x, d, y, e);
}

proof fn lemma_quote_between(before: Seq<char>, text: Seq<char>, after: Seq<char>)
    ensures
        before + seq!['"'] + (text + seq!['"'] + after) == before + seq!['"'] + text + seq!['"']
            + after,
{
    assert(before + seq!['"'] + (text + seq!['"'] + after) =~= before + seq!['"'] + text + seq!['"']
        + after);
}

proof fn lemma_nine(
    a: Seq<char>,
    v: Seq<char>,
    b: Seq<char>,
    w: Seq<char>,
    c: Seq<char>,
    x: Seq<char>,
    d: Seq<char>,
    y: Seq<char>,
    e: Seq<char>,
)
    ensures
        seq![a] + (seq![v] + (seq![b] + (seq![w] + (seq![c] + (seq![x] + (seq![d] + (seq![y]
            + seq![e]))))))) == seq![a, v, b, w, c, x, d, y, e],
{
    assert(seq![y] + seq![e] =~= seq![y, e]);
    assert(seq![d] + seq![y, e] =~= seq![d, y, e]);
    assert(seq![x] + seq![d, y, e] =~= seq![x, d, y, e]);
    assert(seq![c] + seq![x, d, y, e] =~= seq![c, x, d, y, e]);
    assert(seq![w] + seq![c, x, d, y, e] =~= seq![w, c, x, d, y, e]);
    assert(seq![b] + seq![w, c, x, d, y, e] =~= seq![b, w, c, x, d, y, e]);
    assert(seq![v] + seq![b, w, c, x, d, y, e] =~= seq![v, b, w, c, x, d, y, e]);
    assert(seq![a] + seq![v, b, w, c, x, d, y, e] =~= seq![a, v, b, w, c, x, d, y, e]);
}

/// The fixed texts of an element, without the quotes around its values.
proof fn lemma_element_texts()
    ensures
        ({
            let q = seq!['"'];
            &&& r#"<div data-file data-path=""#@ == "<div data-file data-path="@ + q
            &&& r#"" data-has-previous=""#@ == q + " data-has-previous="@ + q
            &&& r#"" data-previous=""#@ == q + " data-previous="@ + q
            &&& r#"" data-current=""#@ == q + " data-current="@ + q
            &&& r#""></div>"#@ == q + "></div>"@
            &&& quote_free("<div data-file data-path="@)
            &&& quote_free(" data-has-previous="@)
            &&& quote_free(" data-previous="@)
            &&& quote_free(" data-current="@)
            &&& quote_free("></div>"@)
        }),
{
    reveal_strlit(r#"<div data-file data-path=""#);
    reveal_strlit(r#"" data-has-previous=""#);
    reveal_strlit(r#"" data-previous=""#);
    reveal_strlit(r#"" data-current=""#);
    reveal_strlit(r#""></div>"#);
    reveal_strlit("<div data-file data-path=");
    reveal_strlit(" data-has-previous=");
    reveal_strlit(" data-previous=");
    reveal_strlit(" data-current=");
    reveal_strlit("></div>");
    let q = seq!['"'];
    assert(r#"<div data-file data-path=""#@ =~= "<div data-file data-path="@ + q);
    assert(r#"" data-has-previous=""#@ =~= q + " data-has-previous="@ + q);
    assert(r#"" data-previous=""#@ =~= q + " data-previous="@ + q);
    assert(r#"" data-current=""#@ =~= q + " data-current="@ + q);
    assert(r#""></div>"#@ =~= q + "></div>"@);
}

/// The values of an element.
proof fn lemma_element_values(entry: EntryView)
    ensures
        quote_free(escaped(entry.path)),
        unescaped(escaped(entry.path)) == entry.path,
        quote_free(truth(entry.previous is Some)),
        truth(entry.previous is Some) == (if entry.previous is Some {
            seq!['t', 'r', 'u', 'e']
        } else {
            seq!['f', 'a', 'l', 's', 'e']
        }),
        quote_free(previous_text(entry.previous)),
        entry.previous is None ==> previous_text(entry.previous).len() == 0,
        entry.previous matches Some(previous) ==> base64_bytes(previous_text(entry.previous))
            == previous,
        quote_free(base64_text(entry.current)),
        base64_bytes(base64_text(entry.current)) == entry.current,
{
    assert(quote_free(escaped(entry.path))) by {
        lemma_escaped_has_no_markup(entry.path);
    }
    lemma_unescape_inverts_escape(entry.path);
    lemma_truth_is_read_back(entry.previous is Some);
    if let Some(bytes) = entry.previous {
        assert(quote_free(base64_text(bytes))) by {
            lemma_base64_has_no_markup(bytes);
        }
        lemma_base64_round_trip(bytes);
    }
    assert(quote_free(base64_text(entry.current))) by {
        lemma_base64_has_no_markup(entry.current);
    }
    lemma_base64_round_trip(entry.current);
}

/// A browser reads back from the element of a file what the file is: its path, whether
/// it has a previous version, and what both versions hold.
pub proof fn lemma_element_is_read_back(entry: EntryView)
    ensures
        ({
            let read = fields(file_element(entry));
            &&& read.len() == 9
            &&& read[0] == "<div data-file data-path="@
            &&& unescaped(read[1]) == entry.path
            &&& read[2] == " data-has-previous="@
            &&& read[3] == (if entry.previous is Some {
                seq!['t', 'r', 'u', 'e']
            } else {
                seq!['f', 'a', 'l', 's', 'e']
            })
            &&& read[4] == " data-previous="@
            &&& entry.previous is None ==> read[5].len() == 0
            &&& entry.previous matches Some(previous) ==> base64_bytes(read[5]) == previous
            &&& read[6] == " data-current="@
            &&& base64_bytes(read[7]) == entry.current
            &&& read[8] == "></div>"@
        }),
{
    let path = escaped(entry.path);
    let has_previous = truth(entry.previous is Some);
    let previous = previous_text(entry.previous);
    let current = base64_text(entry.current);
    lemma_element_values(entry);
    lemma_element_fields(path, has_previous, previous, current);
    let read = fields(file_element(entry));
    assert(read[1] == path && read[3] == has_previous && read[5] == previous && read[7] == current);
}

proof fn lemma_element_fields(
    path: Seq<char>,
    has_previous: Seq<char>,
    previous: Seq<char>,
    current: Seq<char>,
)
    requires
        quote_free(path),
        quote_free(has_previous),
        quote_free(previous),
        quote_free(current),
    ensures
        fields(
            r#"<div data-file data-path=""#@ + path + r#"" data-has-previous=""#@ + has_previous
                + r#"" data-previous=""#@ + previous + r#"" data-current=""#@ + current
                + r#""></div>"#@,
        ) == seq![
            "<div data-file data-path="@,
            path,
            " data-has-previous="@,
            has_previous,
            " data-previous="@,
            previous,
            " data-current="@,
            current,
            "></div>"@,
        ],
{
    lemma_element_texts();
    let a = "<div data-file data-path="@;
    let b = " data-has-previous="@;
    let c = " data-previous="@;
    let d = " data-current="@;
    let e = "></div>"@;
    lemma_four_values(a, path, b, has_previous, c, previous, d, current, e);
    lemma_regroup(a, path, b, has_previous, c, previous, d, current, e);
}

/// Quotes belong to the texts around the values as well as they stand alone.
proof fn lemma_regroup(
    a: Seq<char>,
    v: Seq<char>,
    b: Seq<char>,
    w: Seq<char>,
    c: Seq<char>,
    x: Seq<char>,
    d: Seq<char>,
    y: Seq<char>,
    e: Seq<char>,
)
    ensures
        ({
            let q = seq!['"'];
            (a + q) + v + (q + b + q) + w + (q + c + q) + x + (q + d + q) + y + (q + e) == a + q + v
                + q + b + q + w + q + c + q + x + q + d + q + y + q + e
        }),
{
    let q = seq!['"'];
    let s1 = a + q + v;
    assert(s1 + (q + b + q) =~= s1 + q + b + q);
    let s2 = s1 + q + b + q + w;
    assert(s2 + (q + c + q) =~= s2 + q + c + q);
    let s3 = s2 + q + c + q + x;
    assert(s3 + (q + d + q) =~= s3 + q + d + q);
    let s4 = s3 + q + d + q + y;
    assert(s4 + (q + e) =~= s4 + q + e);
}

/// A browser reads back from the button of a file its index, whether it is the first,
/// and its name.
pub proof fn lemma_button_is_read_back(index: nat, entry: EntryView)
    ensures
        ({
            let button = file_button(index, entry);
            let head = r#"<button class="file-button" type="button" data-file-index=""#@;
            let digits = before_quote(button.skip(head.len() as int));
            let marked = button.skip((head.len() + digits.len()) as int);
            let current = before_quote(marked.skip(16));
            let named = marked.skip(16 + current.len() as int);
            &&& button.take(head.len() as int) == head
            &&& are_digits(digits)
            &&& read_decimal(digits) == index
            &&& marked.take(16) == r#"" aria-current=""#@
            &&& current == (if index == 0 {
                seq!['t', 'r', 'u', 'e']
            } else {
                seq!['f', 'a', 'l', 's', 'e']
            })
            &&& named.len() >= 11
            &&& named.take(2) == r#"">"#@
            &&& unescaped(named.subrange(2, named.len() - 9)) == entry.name
            &&& named.skip(named.len() - 9) == "</button>"@
        }),
{
    let head = r#"<button class="file-button" type="button" data-file-index=""#@;
    let middle = r#"" aria-current=""#@;
    let open = r#"">"#@;
    let close = "</button>"@;
    let digits = decimal(index);
    let current = truth(index == 0);
    let name = escaped(entry.name);
    let button = file_button(index, entry);
    lemma_decimal_is_read_back(index);
    lemma_truth_is_read_back(index == 0);
    lemma_escaped_has_no_markup(entry.name);
    lemma_unescape_inverts_escape(entry.name);
    reveal_strlit(r#"" aria-current=""#);
    reveal_strlit(r#"">"#);
    reveal_strlit("</button>");
    assert(quote_free(digits));
    assert(quote_free(current)) by {
        assert(current == seq!['t', 'r', 'u', 'e'] || current == seq!['f', 'a', 'l', 's', 'e']);
    }
    let named = open + name + close;
    let marked = middle + current + named;
    let numbered = digits + marked;
    assert(button =~= head + numbered);
    assert(button.take(head.len() as int) =~= head);
    assert(button.skip(head.len() as int) =~= numbered);
    lemma_before_quote(digits, marked);
    assert(button.skip((head.len() + digits.len()) as int) =~= marked);
    assert(marked.take(16) =~= middle);
    assert(marked.skip(16) =~= current + named);
    lemma_before_quote(current, named);
    assert(marked.skip(16 + current.len() as int) =~= named);
    assert(named.take(2) =~= open);
    assert(named.subrange(2, named.len() - 9) =~= name);
    assert(named.skip(named.len() - 9) =~= close);
}

/// A text ends in another.
proof fn lemma_ends_in(before: Seq<char>, part: Seq<char>)
    ensures
        occurs(part, before + part),
{
    let none = Seq::<char>::empty();
    assert(before + part + none =~= before + part);
}

/// What occurs in the modes occurs in what clicks and keys do.
proof fn lemma_occurs_in_modes(part: Seq<char>)
    requires
        occurs(part, script_modes()),
    ensures
        occurs(part, script_input()),
{
    let more = SCRIPT_PRESSES@ + SCRIPT_ENDS@ + SCRIPT_KEYS@ + SCRIPT_OTHER_KEYS@ + SCRIPT_TAKES@
        + SCRIPT_MOVES@ + SCRIPT_FOCUS@ + SCRIPT_ENTER@ + SQUASH_ROUTE@ + SCRIPT_SQUASHED@;
    let (head, tail) = choose|head: Seq<char>, tail: Seq<char>|
        script_modes() == #[trigger] (head + part + tail);
    assert(script_input() =~= script_modes() + more);
    assert(script_input() =~= head + part + (tail + more));
}

/// The page has a place for the previous version, one for the current version, and one
/// for both of them, the current version over the previous one, each under its name.
pub proof fn lemma_page_shows_both_versions(entries: Seq<EntryView>)
    requires
        entries.len() > 0,
    ensures
        occurs(
            r#"
        <section class="side-by-side-panel previous-panel">
          <h2>Previous (HEAD)</h2>
          <div class="viewport">
            <img id="previous-image" alt="Previous SVG at HEAD" draggable="false">
          </div>
        </section>"#@,
            page(entries),
        ),
        occurs(
            r#"
        <section class="side-by-side-panel current-panel">
          <h2>Current (working tree)</h2>
          <div class="viewport">
            <img id="current-image" alt="Current SVG in the working tree" draggable="false">
          </div>
        </section>"#@,
            page(entries),
        ),
        occurs(
            r#"
        <section class="overlay-panel">
          <h2 id="overlay-title">Overlay comparison</h2>
          <div class="viewport overlay-viewport">
            <div class="image-stack" id="image-stack">
              <img class="previous-overlay" id="previous-overlay-image" alt="Previous SVG at HEAD" draggable="false">
              <img class="current-overlay" id="current-overlay-image" alt="Current SVG in the working tree" draggable="false">
              <span class="overlay-label label-previous">Previous</span>
              <span class="overlay-label label-current">Current</span>
              <div class="swipe-handle" aria-hidden="true"></div>
            </div>
          </div>
        </section>"#@,
            page(entries),
        ),
{
    assert(panels() =~= Seq::empty() + PREVIOUS_PANEL@ + (CURRENT_PANEL@ + OVERLAY_PANEL@ +
        PAGE_COMPARISON@));
    lemma_occurs_in_panels(PREVIOUS_PANEL@, entries);
    assert(panels() =~= PREVIOUS_PANEL@ + CURRENT_PANEL@ + (OVERLAY_PANEL@ + PAGE_COMPARISON@));
    lemma_occurs_in_panels(CURRENT_PANEL@, entries);
    assert(panels() =~= (PREVIOUS_PANEL@ + CURRENT_PANEL@) + OVERLAY_PANEL@ + PAGE_COMPARISON@);
    lemma_occurs_in_panels(OVERLAY_PANEL@, entries);
}

/// In the page, the two panels side by side or the one with both versions are shown as
/// the mode says, and the current version alone where there is no previous one; the
/// current version is laid over the previous one, as far as the opacity or the divider
/// says.
pub proof fn lemma_style_shows_panels(entries: Seq<EntryView>)
    requires
        entries.len() > 0,
    ensures
        occurs(
            r#".overlay-panel { display: none; }
    .comparison[data-mode="onion"],
    .comparison[data-mode="swipe"] {
      grid-template-columns: minmax(0, 1fr);
    }
    .comparison[data-mode="onion"] .side-by-side-panel,
    .comparison[data-mode="swipe"] .side-by-side-panel {
      display: none;
    }
    .comparison[data-mode="onion"] .overlay-panel,
    .comparison[data-mode="swipe"] .overlay-panel {
      display: block;
    }
    .comparison[data-has-previous="false"] {
      grid-template-columns: minmax(0, 1fr);
    }
    .comparison[data-has-previous="false"] .previous-panel,
    .comparison[data-has-previous="false"] .overlay-panel {
      display: none;
    }
    .comparison[data-has-previous="false"] .current-panel {
      display: block;
    }"#@,
            page(entries),
        ),
        occurs(
            r#".previous-overlay { z-index: 1; }
    .current-overlay {
      z-index: 2;
      opacity: var(--onion-opacity);
    }
    .comparison[data-mode="swipe"] .image-stack {
      cursor: ew-resize;
      touch-action: none;
    }
    .comparison[data-mode="swipe"] .current-overlay {
      opacity: 1;
      clip-path: inset(0 0 0 var(--swipe-position));
    }"#@,
            page(entries),
        ),
{
    assert(page_style() =~= PAGE_STYLE@ + STYLE_PANELS@ + (STYLE_STACK@ + STYLE_OVERLAYS@ +
        STYLE_REST@));
    lemma_occurs_in_style(STYLE_PANELS@, entries);
    assert(page_style() =~= (PAGE_STYLE@ + STYLE_PANELS@ + STYLE_STACK@) + STYLE_OVERLAYS@ +
        STYLE_REST@);
    lemma_occurs_in_style(STYLE_OVERLAYS@, entries);
}

/// In the page, a button selects the file with the index of the button: the script
/// lists the buttons and the files as the document has them, marks the button with a
/// given index, and takes the file with that index; it begins with the first one.
pub proof fn lemma_script_selects_file(entries: Seq<EntryView>)
    requires
        entries.len() > 0,
    ensures
        occurs(
            r#"const fileButtons = Array.from(document.querySelectorAll("[data-file-index]"));
      const files = Array.from(document.querySelectorAll("[data-file]"));"#@,
            page(entries),
        ),
        occurs(
            r#"const setFile = (index) => {
        currentFileIndex = index;
        const file = files[index];
        const path = file.dataset.path;
        const hasPrevious = file.dataset.hasPrevious === "true";
        const currentSource = "data:image/svg+xml;base64," + file.dataset.current;"#@,
            page(entries),
        ),
        occurs(
            r#"button.setAttribute("aria-current", String(buttonIndex === index));"#@,
            page(entries),
        ),
        occurs(
            r#"fileButtons.forEach((button, index) => {
        button.addEventListener("click", () => setFile(index));"#@,
            page(entries),
        ),
        occurs(
            r#"setSidebarVisible(true);
      setFile(0);
      setMode("side-by-side");"#@,
            page(entries),
        ),
{
    assert(script_selection() =~= SCRIPT_OPENING@ + SCRIPT_LISTS@ + (SCRIPT_VIEWPORTS@ +
        SCRIPT_IMAGES@ + SCRIPT_CONTROLS@ + SCRIPT_MODE_CONTROLS@ + SCRIPT_SELECTION@ +
        SCRIPT_SELECTED@ + SCRIPT_BUTTONS@ + SCRIPT_MARKED@));
    lemma_occurs_in_script(SCRIPT_LISTS@, entries);
    assert(script_selection() =~= (SCRIPT_OPENING@ + SCRIPT_LISTS@ + SCRIPT_VIEWPORTS@ +
        SCRIPT_IMAGES@ + SCRIPT_CONTROLS@ + SCRIPT_MODE_CONTROLS@ + SCRIPT_SELECTION@) +
        SCRIPT_SELECTED@ + (SCRIPT_BUTTONS@ + SCRIPT_MARKED@));
    lemma_occurs_in_script(SCRIPT_SELECTED@, entries);
    assert(script_selection() =~= (SCRIPT_OPENING@ + SCRIPT_LISTS@ + SCRIPT_VIEWPORTS@ +
        SCRIPT_IMAGES@ + SCRIPT_CONTROLS@ + SCRIPT_MODE_CONTROLS@ + SCRIPT_SELECTION@ +
        SCRIPT_SELECTED@ + SCRIPT_BUTTONS@) + SCRIPT_MARKED@ + Seq::empty());
    lemma_occurs_in_script(SCRIPT_MARKED@, entries);
    assert(script_modes() =~= (SCRIPT_SCROLLS@ + SCRIPT_OVERLAYS@ + SCRIPT_MODES@ +
        SCRIPT_TOGGLES@) + SCRIPT_CLICKS@ + Seq::empty());
    lemma_occurs_in_modes(SCRIPT_CLICKS@);
    lemma_occurs_in_script(SCRIPT_CLICKS@, entries);
    assert(script_rest() =~= (SCRIPT_REPLY@ + SCRIPT_REFUSED@ + SCRIPT_NEXT@ + SCRIPT_ADVANCES@
        + SCRIPT_REVEALS@ + SCRIPT_RANGES@ + SCRIPT_POINTER@) + SCRIPT_BEGINS@ +
        SCRIPT_CLOSING@);
    lemma_occurs_in_script(SCRIPT_BEGINS@, entries);
}

/// In the page, the images of the current version show the current version of the file
/// that is selected, and those of the previous version its previous version where there
/// is one; its path is shown with them.
pub proof fn lemma_script_shows_selected_file(entries: Seq<EntryView>)
    requires
        entries.len() > 0,
    ensures
        occurs(
            r#"const previousImages = [
        document.getElementById("previous-image"),
        document.getElementById("previous-overlay-image"),
      ];
      const currentImages = [
        document.getElementById("current-image"),
        document.getElementById("current-overlay-image"),
      ];"#@,
            page(entries),
        ),
        occurs(
            r#"if (hasPrevious) {
            image.src = "data:image/svg+xml;base64," + file.dataset.previous;"#@,
            page(entries),
        ),
        occurs(
            r#"currentImages.forEach((image) => {
          image.src = currentSource;"#@,
            page(entries),
        ),
        occurs(
            r#"comparison.dataset.hasPrevious = String(hasPrevious);
        updateModeControls();
        selectedPath.textContent = path;
        document.title = "SVG comparison — " + path;"#@,
            page(entries),
        ),
{
    assert(script_selection() =~= (SCRIPT_OPENING@ + SCRIPT_LISTS@ + SCRIPT_VIEWPORTS@) +
        SCRIPT_IMAGES@ + (SCRIPT_CONTROLS@ + SCRIPT_MODE_CONTROLS@ + SCRIPT_SELECTION@ +
        SCRIPT_SELECTED@ + SCRIPT_BUTTONS@ + SCRIPT_MARKED@));
    lemma_occurs_in_script(SCRIPT_IMAGES@, entries);
    assert(script_display() =~= SCRIPT_OLD_IMAGES@ + SCRIPT_PREVIOUS@ + (SCRIPT_OTHER_IMAGES@ +
        SCRIPT_CURRENT@ + SCRIPT_COMPARISON@ + SCRIPT_SHOWN_PATH@));
    lemma_occurs_in_script(SCRIPT_PREVIOUS@, entries);
    assert(script_display() =~= (SCRIPT_OLD_IMAGES@ + SCRIPT_PREVIOUS@ + SCRIPT_OTHER_IMAGES@) +
        SCRIPT_CURRENT@ + (SCRIPT_COMPARISON@ + SCRIPT_SHOWN_PATH@));
    lemma_occurs_in_script(SCRIPT_CURRENT@, entries);
    assert(script_display() =~= (SCRIPT_OLD_IMAGES@ + SCRIPT_PREVIOUS@ + SCRIPT_OTHER_IMAGES@ +
        SCRIPT_CURRENT@ + SCRIPT_COMPARISON@) + SCRIPT_SHOWN_PATH@ + Seq::empty());
    lemma_occurs_in_script(SCRIPT_SHOWN_PATH@, entries);
}

/// In the page, there are three modes, which can be chosen where there is a previous
/// version, and the opacity and the divider follow their controls.
pub proof fn lemma_script_changes_mode(entries: Seq<EntryView>)
    requires
        entries.len() > 0,
    ensures
        occurs(
            r#"
            <button class="mode-button" type="button" data-mode-button="side-by-side" aria-pressed="true">Side by side</button>
            <button class="mode-button" type="button" data-mode-button="onion" aria-pressed="false">Onion skin</button>
            <button class="mode-button" type="button" data-mode-button="swipe" aria-pressed="false">Swipe</button>"#@,
            page(entries),
        ),
        occurs(
            r#"const updateModeControls = () => {
        const hasPrevious = comparison.dataset.hasPrevious === "true";
        const mode = comparison.dataset.mode;
        modeSwitcher.hidden = !hasPrevious;
        onionControl.hidden = !hasPrevious || mode !== "onion";
        swipeControl.hidden = !hasPrevious || mode !== "swipe";
      };"#@,
            page(entries),
        ),
        occurs(
            r#"const updateOnionOpacity = (value) => {
        const percentage = clampPercentage(value);
        comparison.style.setProperty("--onion-opacity", String(percentage / 100));
        onionOutput.textContent = Math.round(percentage) + "%";
      };

      const updateSwipePosition = (value) => {
        const percentage = clampPercentage(value);
        comparison.style.setProperty("--swipe-position", percentage + "%");
        swipeOutput.textContent = Math.round(percentage) + "%";
      };

      "#@,
            page(entries),
        ),
        occurs(
            r#"const setMode = (mode) => {
        comparison.dataset.mode = mode;
        modeButtons.forEach((button) => {
          button.setAttribute("aria-pressed", String(button.dataset.modeButton === mode));
        });
        updateModeControls();
        overlayTitle.textContent = mode === "onion" ? "Onion skin" : "Swipe";
      };

      modeButtons.forEach((button) => {
        button.addEventListener("click", () => setMode(button.dataset.modeButton));
      });"#@,
            page(entries),
        ),
        occurs(
            r#"onionRange.addEventListener("input", () => updateOnionOpacity(onionRange.value));
      swipeRange.addEventListener("input", () => updateSwipePosition(swipeRange.value));

      const updateSwipeFromPointer = (event) => {
        const bounds = imageStack.getBoundingClientRect();
        const percentage = ((event.clientX - bounds.left) / bounds.width) * 100;
        const roundedPercentage = Math.round(clampPercentage(percentage));
        swipeRange.value = String(roundedPercentage);
        updateSwipePosition(roundedPercentage);
      };"#@,
            page(entries),
        ),
{
    assert(mode_controls() =~= Seq::empty() + MODE_BUTTONS@ + PAGE_MODES@);
    lemma_occurs_in_mode_controls(MODE_BUTTONS@, entries);
    assert(script_selection() =~= (SCRIPT_OPENING@ + SCRIPT_LISTS@ + SCRIPT_VIEWPORTS@ +
        SCRIPT_IMAGES@ + SCRIPT_CONTROLS@) + SCRIPT_MODE_CONTROLS@ + (SCRIPT_SELECTION@ +
        SCRIPT_SELECTED@ + SCRIPT_BUTTONS@ + SCRIPT_MARKED@));
    lemma_occurs_in_script(SCRIPT_MODE_CONTROLS@, entries);
    assert(script_modes() =~= SCRIPT_SCROLLS@ + SCRIPT_OVERLAYS@ + (SCRIPT_MODES@ +
        SCRIPT_TOGGLES@ + SCRIPT_CLICKS@));
    lemma_occurs_in_modes(SCRIPT_OVERLAYS@);
    lemma_occurs_in_script(SCRIPT_OVERLAYS@, entries);
    assert(script_modes() =~= (SCRIPT_SCROLLS@ + SCRIPT_OVERLAYS@) + SCRIPT_MODES@ +
        (SCRIPT_TOGGLES@ + SCRIPT_CLICKS@));
    lemma_occurs_in_modes(SCRIPT_MODES@);
    lemma_occurs_in_script(SCRIPT_MODES@, entries);
    assert(script_rest() =~= (SCRIPT_REPLY@ + SCRIPT_REFUSED@ + SCRIPT_NEXT@ + SCRIPT_ADVANCES@
        + SCRIPT_REVEALS@) + SCRIPT_RANGES@ + (SCRIPT_POINTER@ + SCRIPT_BEGINS@ +
        SCRIPT_CLOSING@));
    lemma_occurs_in_script(SCRIPT_RANGES@, entries);
}

/// In the page, Home and End select the first and the last file, and the arrow keys,
/// `j` and `k` the next and the previous one; other keys are left alone.
pub proof fn lemma_script_follows_keys(entries: Seq<EntryView>)
    requires
        entries.len() > 0,
    ensures
        occurs(
            r#"let nextIndex = null;
          if (event.key === "Home") {
            nextIndex = 0;
          } else if (event.key === "End") {
            nextIndex = fileButtons.length - 1;
          }

          if (nextIndex !== null) {
            event.preventDefault();
            fileButtons[nextIndex].focus();
            setFile(nextIndex);
          }"#@,
            page(entries),
        ),
        occurs(
            r#"if (
          event.key !== "ArrowDown" &&
          event.key !== "ArrowUp" &&
          event.key !== "j" &&
          event.key !== "k"
        ) {
          return;
        }"#@,
            page(entries),
        ),
        occurs(
            r#"const direction = event.key === "ArrowDown" || event.key === "j" ? 1 : -1;
        const nextIndex = Math.min(
          fileButtons.length - 1,
          Math.max(0, currentFileIndex + direction),
        );
        const shouldMoveFocus = fileButtons.includes(document.activeElement);
        setFile(nextIndex);"#@,
            page(entries),
        ),
{
    assert(script_input() =~= (script_modes() + SCRIPT_PRESSES@) + SCRIPT_ENDS@ + (SCRIPT_KEYS@
        + SCRIPT_OTHER_KEYS@ + SCRIPT_TAKES@ + SCRIPT_MOVES@ + SCRIPT_FOCUS@ + SCRIPT_ENTER@ +
        SQUASH_ROUTE@ + SCRIPT_SQUASHED@));
    lemma_occurs_in_script(SCRIPT_ENDS@, entries);
    assert(script_input() =~= (script_modes() + SCRIPT_PRESSES@ + SCRIPT_ENDS@ + SCRIPT_KEYS@) +
        SCRIPT_OTHER_KEYS@ + (SCRIPT_TAKES@ + SCRIPT_MOVES@ + SCRIPT_FOCUS@ + SCRIPT_ENTER@ +
        SQUASH_ROUTE@ + SCRIPT_SQUASHED@));
    lemma_occurs_in_script(SCRIPT_OTHER_KEYS@, entries);
    assert(script_input() =~= (script_modes() + SCRIPT_PRESSES@ + SCRIPT_ENDS@ + SCRIPT_KEYS@ +
        SCRIPT_OTHER_KEYS@ + SCRIPT_TAKES@) + SCRIPT_MOVES@ + (SCRIPT_FOCUS@ + SCRIPT_ENTER@ +
        SQUASH_ROUTE@ + SCRIPT_SQUASHED@));
    lemma_occurs_in_script(SCRIPT_MOVES@, entries);
}

/// In the page, Enter has the server squash the file on view, and the page moves on to
/// the file that the server names, unless the server has failed.
pub proof fn lemma_script_squashes_file(entries: Seq<EntryView>)
    requires
        entries.len() > 0,
    ensures
        occurs(
            r#"if (event.key !== "Enter" || event.repeat || onOtherControl) {
          return;
        }

        event.preventDefault();
        const response = await fetch(""#@ + "/squash/"@ + r#"" + currentFileIndex, {
          method: "POST","#@,
            page(entries),
        ),
        occurs(
            r#"if (response === null || !response.ok) {
          return;
        }"#@,
            page(entries),
        ),
        occurs(
            r#"const nextIndex = Number(await response.text());
        setFile(nextIndex);"#@,
            page(entries),
        ),
{
    let enter = SCRIPT_ENTER@ + "/squash/"@ + SCRIPT_SQUASHED@;
    let before = script_modes() + SCRIPT_PRESSES@ + SCRIPT_ENDS@ + SCRIPT_KEYS@ + SCRIPT_OTHER_KEYS@
        + SCRIPT_TAKES@ + SCRIPT_MOVES@ + SCRIPT_FOCUS@;
    lemma_ends_in(before, enter);
    assert(script_input() =~= before + enter);
    lemma_occurs_in_script(enter, entries);
    assert(script_rest() =~= SCRIPT_REPLY@ + SCRIPT_REFUSED@ + (SCRIPT_NEXT@ + SCRIPT_ADVANCES@
        + SCRIPT_REVEALS@ + SCRIPT_RANGES@ + SCRIPT_POINTER@ + SCRIPT_BEGINS@ +
        SCRIPT_CLOSING@));
    lemma_occurs_in_script(SCRIPT_REFUSED@, entries);
    assert(script_rest() =~= (SCRIPT_REPLY@ + SCRIPT_REFUSED@ + SCRIPT_NEXT@) + SCRIPT_ADVANCES@
        + (SCRIPT_REVEALS@ + SCRIPT_RANGES@ + SCRIPT_POINTER@ + SCRIPT_BEGINS@ +
        SCRIPT_CLOSING@));
    lemma_occurs_in_script(SCRIPT_ADVANCES@, entries);
}

/// What is rendered are the files themselves, each in its place.
pub proof fn lemma_versions_are_seen(versions: Seq<SnapshotVersions>, i: int)
    requires
        0 <= i < versions.len(),
    ensures
        all_versions(versions).len() == versions.len(),
        all_versions(versions)[i].path.bytes == versions[i].repository_relative_path.bytes@,
        all_versions(versions)[i].path.syntax == versions[i].repository_relative_path.syntax,
        all_versions(versions)[i].current == versions[i].current@,
        versions[i].previous is None <==> all_versions(versions)[i].previous is None,
        versions[i].previous matches Some(previous) ==> all_versions(versions)[i].previous == Some(
            previous@,
        ),
{
}

/// The page holds what the files hold.
pub proof fn lemma_entry_holds_contents(versions: VersionsView)
    ensures
        entry_of(versions).path == shown_path(versions.path),
        entry_of(versions).previous == versions.previous,
        entry_of(versions).current == versions.current,
{
}

/// Files of every size that base64 can be made of are rendered: those whose four
/// characters for every three bytes fit in memory.
pub proof fn lemma_what_fits_is_rendered(versions: VersionsView)
    requires
        4 * versions.current.len() + 8 <= 3 * isize::MAX,
        versions.previous matches Some(previous) ==> 4 * previous.len() + 8 <= 3 * isize::MAX,
    ensures
        is_renderable(versions),
        is_encodable(versions.current),
{
}

/// A path that is a text is shown as that text.
pub proof fn lemma_text_is_shown(path: PathView)
    requires
        valid_utf8(path.bytes),
    ensures
        shown_path(path) == decode_utf8(path.bytes),
{
    lemma_text_has_no_surrogates(path.bytes);
}

/// The button of a file has what stands after the last separator of its path.
pub proof fn lemma_button_has_last_name(base: PathView, separator: u8, name: Seq<u8>)
    requires
        can_follow(base, separator, name),
        is_unseparated(name),
        name.len() > 0 && name != seq![46u8] && name != seq![46u8, 46u8],
    ensures
        forall|versions: VersionsView|
            versions.path == joined(base, separator, name) ==> #[trigger] entry_of(versions).name
                == shown_path(PathView { syntax: base.syntax, bytes: name }),
{
    lemma_last_name_is_file_name(base, separator, name);
}

/// The button of a file whose path is a name alone, or has no name in the end, has the
/// whole path.
pub proof fn lemma_button_has_whole_path(versions: VersionsView)
    requires
        file_name_of(versions.path) is None || (prefix_of(versions.path) is None && is_unseparated(
            versions.path.bytes,
        )),
    ensures
        entry_of(versions).name == entry_of(versions).path,
{
    if file_name_of(versions.path) is Some {
        lemma_name_alone_is_file_name(versions.path);
    }
}

/// Files whose base64 text does not fit in memory are not rendered.
pub proof fn lemma_what_does_not_fit_is_not_rendered(versions: VersionsView)
    requires
        4 * versions.current.len() > 3 * isize::MAX || (versions.previous matches Some(previous)
            && 4 * previous.len() > 3 * isize::MAX),
    ensures
        !is_renderable(versions),
{
}

/// A path that is no text is shown as `String::from_utf8_lossy` reads it, on Windows
/// after a replacement character has taken the place of each single surrogate.
pub proof fn lemma_other_bytes_are_shown(bytes: Seq<u8>)
    ensures
        !valid_utf8(bytes) ==> shown_path(PathView { syntax: Syntax::Unix, bytes }) == utf8_lossy(
            bytes,
        ),
        shown_path(PathView { syntax: Syntax::Windows, bytes }) == shown_path(
            PathView { syntax: Syntax::Unix, bytes: without_surrogates(bytes) },
        ),
{
}

} // verus!
