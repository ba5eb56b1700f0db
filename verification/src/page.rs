//! The comparison page.

use vstd::prelude::*;
use vstd::utf8::{decode_utf8, valid_utf8};

use crate::encoding::{
    base64_len, base64_text, encode_base64, lemma_base64_has_no_markup, lemma_base64_is_injective,
};
use crate::escape::{
    escape_html, escaped, is_markup, lemma_escape_is_injective, lemma_escaped_has_no_markup,
    lemma_markup_concat, lemma_no_markup, markup_in,
};
use crate::path::{file_name, file_name_of, PathView, Syntax, SystemPath};
use crate::path_laws::lemma_file_name_of_text;
use crate::routes::{LIFECYCLE_SCRIPT_ROUTE, SQUASH_ROUTE};
use crate::template::{
    CURRENT_PANEL, MODE_BUTTONS, OVERLAY_PANEL, PAGE_COMPARISON, PAGE_FILE_DATA, PAGE_FILE_LIST,
    PAGE_HEADER, PAGE_MODES, PAGE_START, PAGE_STYLE, PAGE_TOOLBAR, PREVIOUS_PANEL,
    SCRIPT_ADVANCES, SCRIPT_BEGINS, SCRIPT_BUTTONS, SCRIPT_CLICKS, SCRIPT_CLOSING,
    SCRIPT_COMPARISON, SCRIPT_CONTROLS, SCRIPT_CURRENT, SCRIPT_ENDS, SCRIPT_ENTER, SCRIPT_FOCUS,
    SCRIPT_IMAGES, SCRIPT_KEYS, SCRIPT_LISTS, SCRIPT_MARKED, SCRIPT_MODES, SCRIPT_MODE_CONTROLS,
    SCRIPT_MOVES, SCRIPT_NEXT, SCRIPT_OLD_IMAGES, SCRIPT_OPENING, SCRIPT_OTHER_IMAGES,
    SCRIPT_OTHER_KEYS, SCRIPT_OVERLAYS, SCRIPT_POINTER, SCRIPT_PRESSES, SCRIPT_PREVIOUS,
    SCRIPT_RANGES, SCRIPT_REFUSED, SCRIPT_REPLY, SCRIPT_REVEALS, SCRIPT_SCROLLS,
    SCRIPT_SELECTED, SCRIPT_SELECTION, SCRIPT_SHOWN_PATH, SCRIPT_SQUASHED, SCRIPT_TAKES,
    SCRIPT_TOGGLES, SCRIPT_VIEWPORTS, STYLE_OVERLAYS, STYLE_PANELS, STYLE_REST, STYLE_STACK,
};
use crate::text::{
    decimal, decode, decoded, lemma_text_has_no_surrogates, push_decimal, push_truth,
    replace_surrogates, truth, without_surrogates,
};

verus! {

/// The two versions of one SVG file.
#[derive(Debug)]
pub struct SnapshotVersions {
    /// The path of the file, relative to the working tree.
    pub repository_relative_path: SystemPath,
    /// The contents at `HEAD`, if the file is there.
    pub previous: Option<Vec<u8>>,
    /// The contents in the working tree.
    pub current: Vec<u8>,
}

/// What a [`SnapshotVersions`] is.
pub struct VersionsView {
    pub path: PathView,
    pub previous: Option<Seq<u8>>,
    pub current: Seq<u8>,
}

/// The contents of an optional buffer.
pub open spec fn optional_view(bytes: Option<Vec<u8>>) -> Option<Seq<u8>> {
    match bytes {
        Some(bytes) => Some(bytes@),
        None => None,
    }
}

impl View for SnapshotVersions {
    type V = VersionsView;

    open spec fn view(&self) -> VersionsView {
        VersionsView {
            path: self.repository_relative_path@,
            previous: optional_view(self.previous),
            current: self.current@,
        }
    }
}

/// What some versions are.
pub open spec fn all_versions(versions: Seq<SnapshotVersions>) -> Seq<VersionsView> {
    Seq::new(versions.len(), |i: int| versions[i]@)
}

/// One file as the page shows it.
pub struct FileEntry<'a> {
    /// The path, for the header and the title.
    pub path: String,
    /// The name on the file's button.
    pub name: String,
    /// The two versions.
    pub versions: &'a SnapshotVersions,
}

/// What a [`FileEntry`] is.
pub struct EntryView {
    pub path: Seq<char>,
    pub name: Seq<char>,
    pub previous: Option<Seq<u8>>,
    pub current: Seq<u8>,
}

impl<'a> View for FileEntry<'a> {
    type V = EntryView;

    open spec fn view(&self) -> EntryView {
        EntryView {
            path: self.path@,
            name: self.name@,
            previous: self.versions@.previous,
            current: self.versions@.current,
        }
    }
}

/// What some entries are.
pub open spec fn all_entries(entries: Seq<FileEntry>) -> Seq<EntryView> {
    Seq::new(entries.len(), |i: int| entries[i]@)
}

/// The text that is shown for some bytes of a path. On Windows a replacement
/// character stands for each single surrogate.
pub open spec fn shown_text(syntax: Syntax, bytes: Seq<u8>) -> Seq<char> {
    match syntax {
        Syntax::Unix => decoded(bytes),
        Syntax::Windows => decoded(without_surrogates(bytes)),
    }
}

/// The text that is shown for a path.
pub open spec fn shown_path(path: PathView) -> Seq<char> {
    shown_text(path.syntax, path.bytes)
}

/// The bytes of a path that are on its button: the file name, or the whole path
/// where there is none.
pub open spec fn button_name(path: PathView) -> Seq<u8> {
    match file_name_of(path) {
        Some(name) => name,
        None => path.bytes,
    }
}

/// How the page shows a file.
pub open spec fn entry_of(versions: VersionsView) -> EntryView {
    EntryView {
        path: shown_path(versions.path),
        name: shown_text(versions.path.syntax, button_name(versions.path)),
        previous: versions.previous,
        current: versions.current,
    }
}

/// How the page shows some files.
pub open spec fn entries_of(versions: Seq<VersionsView>) -> Seq<EntryView> {
    Seq::new(versions.len(), |i: int| entry_of(versions[i]))
}

/// Whether some contents are small enough to be written as base64.
pub open spec fn is_encodable(bytes: Seq<u8>) -> bool {
    base64_len(bytes.len()) <= isize::MAX
}

/// Whether both versions of a file are small enough to be written as base64.
pub open spec fn is_renderable(versions: VersionsView) -> bool {
    &&& is_encodable(versions.current)
    &&& versions.previous matches Some(previous) ==> is_encodable(previous)
}

/// The button of the `index`-th file.
pub open spec fn file_button(index: nat, entry: EntryView) -> Seq<char> {
    r#"<button class="file-button" type="button" data-file-index=""#@ + decimal(index)
        + r#"" aria-current=""#@ + truth(index == 0) + r#"">"#@ + escaped(entry.name)
        + "</button>"@
}

/// The buttons of all files.
pub open spec fn file_buttons(entries: Seq<EntryView>) -> Seq<char>
    decreases entries.len(),
{
    if entries.len() == 0 {
        Seq::empty()
    } else {
        file_buttons(entries.drop_last()) + file_button(
            (entries.len() - 1) as nat,
            entries.last(),
        )
    }
}

/// The text of the contents at `HEAD`; empty where there are none.
pub open spec fn previous_text(previous: Option<Seq<u8>>) -> Seq<char> {
    match previous {
        Some(bytes) => base64_text(bytes),
        None => Seq::empty(),
    }
}

/// The element that holds both versions of a file.
pub open spec fn file_element(entry: EntryView) -> Seq<char> {
    r#"<div data-file data-path=""#@ + escaped(entry.path) + r#"" data-has-previous=""#@ + truth(
        entry.previous is Some,
    ) + r#"" data-previous=""#@ + previous_text(entry.previous) + r#"" data-current=""#@
        + base64_text(entry.current) + r#""></div>"#@
}

/// The elements of all files.
pub open spec fn file_elements(entries: Seq<EntryView>) -> Seq<char>
    decreases entries.len(),
{
    if entries.len() == 0 {
        Seq::empty()
    } else {
        file_elements(entries.drop_last()) + file_element(entries.last())
    }
}

/// The number of files, in words.
pub open spec fn file_count(count: nat) -> Seq<char> {
    decimal(count) + (if count == 1 {
        " file"@
    } else {
        " files"@
    })
}

/// The attribute that hides the mode switcher.
pub open spec fn hidden_unless(shown: bool) -> Seq<char> {
    if shown {
        ""@
    } else {
        " hidden"@
    }
}

/// The element that loads the lifecycle script.
pub open spec fn script_element() -> Seq<char> {
    r#"<script src=""#@ + LIFECYCLE_SCRIPT_ROUTE@ + r#""></script>"#@
}

/// The style of the page, and the rest up to the number of files.
pub open spec fn page_style() -> Seq<char> {
    PAGE_STYLE@ + STYLE_PANELS@ + STYLE_STACK@ + STYLE_OVERLAYS@ + STYLE_REST@
}

/// The controls of the modes, and the rest up to the comparison.
pub open spec fn mode_controls() -> Seq<char> {
    MODE_BUTTONS@ + PAGE_MODES@
}

/// The panels that show the two versions, and the rest up to the script element.
pub open spec fn panels() -> Seq<char> {
    PREVIOUS_PANEL@ + CURRENT_PANEL@ + OVERLAY_PANEL@ + PAGE_COMPARISON@
}

/// The script up to the display of a file's versions.
pub open spec fn script_selection() -> Seq<char> {
    SCRIPT_OPENING@ + SCRIPT_LISTS@ + SCRIPT_VIEWPORTS@ + SCRIPT_IMAGES@ + SCRIPT_CONTROLS@
        + SCRIPT_MODE_CONTROLS@ + SCRIPT_SELECTION@ + SCRIPT_SELECTED@ + SCRIPT_BUTTONS@
        + SCRIPT_MARKED@
}

/// The display of a file's versions.
pub open spec fn script_display() -> Seq<char> {
    SCRIPT_OLD_IMAGES@ + SCRIPT_PREVIOUS@ + SCRIPT_OTHER_IMAGES@ + SCRIPT_CURRENT@
        + SCRIPT_COMPARISON@ + SCRIPT_SHOWN_PATH@
}

/// How versions are laid one over the other, and what clicks do.
pub open spec fn script_modes() -> Seq<char> {
    SCRIPT_SCROLLS@ + SCRIPT_OVERLAYS@ + SCRIPT_MODES@ + SCRIPT_TOGGLES@ + SCRIPT_CLICKS@
}

/// What clicks and keys do.
pub open spec fn script_input() -> Seq<char> {
    script_modes() + SCRIPT_PRESSES@ + SCRIPT_ENDS@ + SCRIPT_KEYS@ + SCRIPT_OTHER_KEYS@
        + SCRIPT_TAKES@ + SCRIPT_MOVES@ + SCRIPT_FOCUS@ + SCRIPT_ENTER@ + SQUASH_ROUTE@
        + SCRIPT_SQUASHED@
}

/// The rest of the script, and of the document.
pub open spec fn script_rest() -> Seq<char> {
    SCRIPT_REPLY@ + SCRIPT_REFUSED@ + SCRIPT_NEXT@ + SCRIPT_ADVANCES@ + SCRIPT_REVEALS@
        + SCRIPT_RANGES@ + SCRIPT_POINTER@ + SCRIPT_BEGINS@ + SCRIPT_CLOSING@
}

/// The page for some files; nothing for no files. It begins with the first file
/// selected.
pub open spec fn page(entries: Seq<EntryView>) -> Seq<char> {
    if entries.len() == 0 {
        Seq::empty()
    } else {
        let first = entries[0];
        PAGE_START@ + "<title>SVG comparison — "@ + escaped(first.path) + "</title>"@ + page_style()
            + r#"<span class="file-count">"#@ + file_count(entries.len()) + "</span>"@
            + PAGE_FILE_LIST@ + r#"<nav class="file-list" aria-label="SVG files">"#@
            + file_buttons(entries) + "</nav>"@ + PAGE_FILE_DATA@
            + r#"<div id="file-data" hidden>"#@ + file_elements(entries) + "</div>"@ + PAGE_HEADER@
            + r#"<div class="path" id="selected-path">"#@ + escaped(first.path) + "</div>"@
            + PAGE_TOOLBAR@
            + r#"<div class="mode-switcher" id="mode-switcher" role="group" aria-label="Comparison mode""#@
            + hidden_unless(first.previous is Some) + ">"@ + mode_controls()
            + r#"<main class="comparison" id="comparison" data-mode="side-by-side" data-has-previous=""#@
            + truth(first.previous is Some) + r#"">"#@ + panels() + script_element()
            + script_selection() + script_display() + script_input() + script_rest()
    }
}

/// Appends the button of the `index`-th file.
fn push_file_button(text: &mut String, index: usize, entry: &FileEntry)
    ensures
        final(text)@ == old(text)@ + file_button(index as nat, entry@),
{
    let name = escape_html(entry.name.as_str());
    text.append(r#"<button class="file-button" type="button" data-file-index=""#);
    push_decimal(text, index as u64);
    text.append(r#"" aria-current=""#);
    push_truth(text, index == 0);
    text.append(r#"">"#);
    text.append(name.as_str());
    text.append("</button>");
    assert(text@ =~= old(text)@ + file_button(index as nat, entry@));
}

/// Appends the element that holds both versions of a file.
fn push_file_element(text: &mut String, entry: &FileEntry)
    requires
        is_renderable(entry.versions@),
    ensures
        final(text)@ == old(text)@ + file_element(entry@),
{
    let path = escape_html(entry.path.as_str());
    let (has_previous, previous) = match &entry.versions.previous {
        Some(previous) => (true, encode_base64(previous.as_slice())),
        None => (false, String::new()),
    };
    let current = encode_base64(entry.versions.current.as_slice());
    text.append(r#"<div data-file data-path=""#);
    text.append(path.as_str());
    text.append(r#"" data-has-previous=""#);
    push_truth(text, has_previous);
    text.append(r#"" data-previous=""#);
    text.append(previous.as_str());
    text.append(r#"" data-current=""#);
    text.append(current.as_str());
    text.append(r#""></div>"#);
    assert(text@ =~= old(text)@ + file_element(entry@));
}

/// The number of files, in words.
fn count_files(count: usize) -> (text: String)
    ensures
        text@ == file_count(count as nat),
{
    let mut text = String::new();
    push_decimal(&mut text, count as u64);
    proof {
        assert(text@ =~= decimal(count as nat));
    }
    if count == 1 {
        text.append(" file");
    } else {
        text.append(" files");
    }
    text
}

/// The page that shows `entries`, with the first of them selected.
pub fn render_page(entries: &[FileEntry]) -> (html: String)
    requires
        forall|i: int| 0 <= i < entries@.len() ==> is_renderable(#[trigger] entries@[i].versions@),
    ensures
        html@ == page(all_entries(entries@)),
{
    let ghost views = all_entries(entries@);
    if entries.len() == 0 {
        return String::new();
    }
    let first = &entries[0];
    let first_path = escape_html(first.path.as_str());
    let first_has_previous = first.versions.previous.is_some();
    let count = count_files(entries.len());
    let mut buttons = String::new();
    let mut elements = String::new();
    proof {
        assert(views.take(0) =~= Seq::empty());
        assert(buttons@ =~= file_buttons(views.take(0)));
        assert(elements@ =~= file_elements(views.take(0)));
    }
    for i in 0..entries.len()
        invariant
            views == all_entries(entries@),
            forall|i: int|
                0 <= i < entries@.len() ==> is_renderable(#[trigger] entries@[i].versions@),
            buttons@ == file_buttons(views.take(i as int)),
            elements@ == file_elements(views.take(i as int)),
    {
        let entry = &entries[i];
        push_file_button(&mut buttons, i, entry);
        push_file_element(&mut elements, entry);
        proof {
            let next = views.take(i + 1);
            assert(next.drop_last() =~= views.take(i as int));
            assert(next.last() == entries@[i as int]@);
        }
    }
    proof {
        assert(views.take(views.len() as int) =~= views);
    }
    let mut script = r#"<script src=""#.to_owned();
    script.append(LIFECYCLE_SCRIPT_ROUTE);
    script.append(r#""></script>"#);
    let mut html = PAGE_START.to_owned();
    html.append("<title>SVG comparison — ");
    html.append(first_path.as_str());
    html.append("</title>");
    let mut style = PAGE_STYLE.to_owned();
    style.append(STYLE_PANELS);
    style.append(STYLE_STACK);
    style.append(STYLE_OVERLAYS);
    style.append(STYLE_REST);
    html.append(style.as_str());
    html.append(r#"<span class="file-count">"#);
    html.append(count.as_str());
    html.append("</span>");
    html.append(PAGE_FILE_LIST);
    html.append(r#"<nav class="file-list" aria-label="SVG files">"#);
    html.append(buttons.as_str());
    html.append("</nav>");
    html.append(PAGE_FILE_DATA);
    html.append(r#"<div id="file-data" hidden>"#);
    html.append(elements.as_str());
    html.append("</div>");
    html.append(PAGE_HEADER);
    html.append(r#"<div class="path" id="selected-path">"#);
    html.append(first_path.as_str());
    html.append("</div>");
    html.append(PAGE_TOOLBAR);
    html.append(
        r#"<div class="mode-switcher" id="mode-switcher" role="group" aria-label="Comparison mode""#,
    );
    if first_has_previous {
        html.append("");
    } else {
        html.append(" hidden");
    }
    html.append(">");
    let mut modes = MODE_BUTTONS.to_owned();
    modes.append(PAGE_MODES);
    html.append(modes.as_str());
    html.append(
        r#"<main class="comparison" id="comparison" data-mode="side-by-side" data-has-previous=""#,
    );
    push_truth(&mut html, first_has_previous);
    html.append(r#"">"#);
    let mut panels = PREVIOUS_PANEL.to_owned();
    panels.append(CURRENT_PANEL);
    panels.append(OVERLAY_PANEL);
    panels.append(PAGE_COMPARISON);
    html.append(panels.as_str());
    html.append(script.as_str());
    push_script(&mut html);
    html
}

/// Appends the page's own script, and the rest of the document.
fn push_script(html: &mut String)
    ensures
        final(html)@ == old(html)@ + script_selection() + script_display() + script_input()
            + script_rest(),
{
    let mut selection = SCRIPT_OPENING.to_owned();
    selection.append(SCRIPT_LISTS);
    selection.append(SCRIPT_VIEWPORTS);
    selection.append(SCRIPT_IMAGES);
    selection.append(SCRIPT_CONTROLS);
    selection.append(SCRIPT_MODE_CONTROLS);
    selection.append(SCRIPT_SELECTION);
    selection.append(SCRIPT_SELECTED);
    selection.append(SCRIPT_BUTTONS);
    selection.append(SCRIPT_MARKED);
    let mut display = SCRIPT_OLD_IMAGES.to_owned();
    display.append(SCRIPT_PREVIOUS);
    display.append(SCRIPT_OTHER_IMAGES);
    display.append(SCRIPT_CURRENT);
    display.append(SCRIPT_COMPARISON);
    display.append(SCRIPT_SHOWN_PATH);
    let mut input = SCRIPT_SCROLLS.to_owned();
    input.append(SCRIPT_OVERLAYS);
    input.append(SCRIPT_MODES);
    input.append(SCRIPT_TOGGLES);
    input.append(SCRIPT_CLICKS);
    input.append(SCRIPT_PRESSES);
    input.append(SCRIPT_ENDS);
    input.append(SCRIPT_KEYS);
    input.append(SCRIPT_OTHER_KEYS);
    input.append(SCRIPT_TAKES);
    input.append(SCRIPT_MOVES);
    input.append(SCRIPT_FOCUS);
    input.append(SCRIPT_ENTER);
    input.append(SQUASH_ROUTE);
    input.append(SCRIPT_SQUASHED);
    let mut rest = SCRIPT_REPLY.to_owned();
    rest.append(SCRIPT_REFUSED);
    rest.append(SCRIPT_NEXT);
    rest.append(SCRIPT_ADVANCES);
    rest.append(SCRIPT_REVEALS);
    rest.append(SCRIPT_RANGES);
    rest.append(SCRIPT_POINTER);
    rest.append(SCRIPT_BEGINS);
    rest.append(SCRIPT_CLOSING);
    html.append(selection.as_str());
    html.append(display.as_str());
    html.append(input.as_str());
    html.append(rest.as_str());
}

/// The text that is shown for some bytes of a path.
fn show(syntax: Syntax, bytes: &[u8]) -> (text: String)
    ensures
        text@ == shown_text(syntax, bytes@),
{
    match syntax {
        Syntax::Unix => decode(bytes),
        Syntax::Windows => decode(replace_surrogates(bytes).as_slice()),
    }
}

/// The text that is shown for a path.
pub fn show_path(path: &SystemPath) -> (text: String)
    ensures
        text@ == shown_path(path@),
{
    show(path.syntax, path.bytes.as_slice())
}

/// How the page shows a file.
pub fn file_entry(versions: &SnapshotVersions) -> (entry: FileEntry<'_>)
    ensures
        entry@ == entry_of(versions@),
        entry.versions == versions,
{
    let path = &versions.repository_relative_path;
    let name = match file_name(path) {
        Some(name) => show(path.syntax, name.as_slice()),
        None => show_path(path),
    };
    FileEntry { path: show_path(path), name, versions }
}

/// The page that compares the versions of some files, with the first of them
/// selected; nothing where there are no files.
pub fn render_html(versions: &[SnapshotVersions]) -> (html: String)
    requires
        forall|i: int| 0 <= i < versions@.len() ==> is_renderable(#[trigger] versions@[i]@),
    ensures
        html@ == page(entries_of(all_versions(versions@))),
{
    let mut entries: Vec<FileEntry> = Vec::new();
    for i in 0..versions.len()
        invariant
            entries@.len() == i,
            forall|j: int|
                0 <= j < i ==> (#[trigger] entries@[j])@ == entry_of(versions@[j]@)
                    && entries@[j].versions == versions@[j],
    {
        entries.push(file_entry(&versions[i]));
    }
    proof {
        assert(all_entries(entries@) =~= entries_of(all_versions(versions@)));
        assert forall|i: int| 0 <= i < entries@.len() implies is_renderable(
            #[trigger] entries@[i].versions@,
        ) by {
            assert(entries@[i].versions@ == versions@[i]@);
        }
    }
    render_page(entries.as_slice())
}

/// Whether some contents are small enough to be written as base64.
pub fn can_encode(bytes: &[u8]) -> (can: bool)
    ensures
        can == is_encodable(bytes@),
{
    bytes.len() <= (isize::MAX as usize) / 4 * 3
}

/// Whether the versions of all files are small enough to be rendered.
pub fn can_render(versions: &[SnapshotVersions]) -> (can: bool)
    ensures
        can == (forall|i: int| 0 <= i < versions@.len() ==> is_renderable(#[trigger] versions@[i]@)),
{
    for i in 0..versions.len()
        invariant
            forall|j: int| 0 <= j < i ==> is_renderable(#[trigger] versions@[j]@),
    {
        let current = can_encode(versions[i].current.as_slice());
        let previous = match &versions[i].previous {
            Some(bytes) => can_encode(bytes.as_slice()),
            None => true,
        };
        if !current || !previous {
            assert(!is_renderable(versions@[i as int]@));
            return false;
        }
    }
    true
}

/// A path that is valid UTF-8 is shown exactly, and so is the name on its button.
pub proof fn lemma_text_path_is_shown_exactly(versions: VersionsView)
    requires
        valid_utf8(versions.path.bytes),
    ensures
        entry_of(versions).path == decode_utf8(versions.path.bytes),
        entry_of(versions).name == decode_utf8(button_name(versions.path)),
{
    lemma_file_name_of_text(versions.path);
    lemma_text_has_no_surrogates(versions.path.bytes);
    lemma_text_has_no_surrogates(button_name(versions.path));
}

/// Whether `text` holds no double quote.
pub open spec fn quote_free(text: Seq<char>) -> bool {
    forall|i: int| 0 <= i < text.len() ==> text[i] != '"'
}

/// A quoted value ends at the first quote.
proof fn lemma_first_quote(x: Seq<char>, t: Seq<char>, y: Seq<char>, u: Seq<char>)
    requires
        quote_free(x),
        quote_free(y),
        t.len() > 0,
        u.len() > 0,
        t[0] == '"',
        u[0] == '"',
        x + t == y + u,
    ensures
        x == y,
        t == u,
{
    if x.len() < y.len() {
        assert((x + t)[x.len() as int] == t[0]);
        assert((y + u)[x.len() as int] == y[x.len() as int]);
    } else if y.len() < x.len() {
        assert((y + u)[y.len() as int] == u[0]);
        assert((x + t)[y.len() as int] == x[y.len() as int]);
    }
    assert(x =~= (x + t).take(x.len() as int));
    assert(y =~= (y + u).take(x.len() as int));
    assert(t =~= (x + t).skip(x.len() as int));
    assert(u =~= (y + u).skip(x.len() as int));
}

/// What follows the same beginning is the same.
proof fn lemma_cancel(head: Seq<char>, t: Seq<char>, u: Seq<char>)
    requires
        head + t == head + u,
    ensures
        t == u,
{
    assert(t =~= (head + t).skip(head.len() as int));
    assert(u =~= (head + u).skip(head.len() as int));
}

/// The element of a file from its current contents on.
spec fn element_current(entry: EntryView) -> Seq<char> {
    r#"" data-current=""#@ + (base64_text(entry.current) + r#""></div>"#@)
}

/// The element of a file from its previous contents on.
spec fn element_previous(entry: EntryView) -> Seq<char> {
    r#"" data-previous=""#@ + (previous_text(entry.previous) + element_current(entry))
}

/// The element of a file from the end of its path on.
spec fn element_has_previous(entry: EntryView) -> Seq<char> {
    r#"" data-has-previous=""#@ + (truth(entry.previous is Some) + element_previous(entry))
}

proof fn lemma_element_parts(entry: EntryView)
    ensures
        file_element(entry) == r#"<div data-file data-path=""#@ + (escaped(entry.path)
            + element_has_previous(entry)),
        quote_free(escaped(entry.path)),
        quote_free(truth(entry.previous is Some)),
        quote_free(previous_text(entry.previous)),
        quote_free(base64_text(entry.current)),
{
    assert(file_element(entry) =~= r#"<div data-file data-path=""#@ + (escaped(entry.path)
        + element_has_previous(entry)));
    lemma_escaped_has_no_markup(entry.path);
    lemma_base64_has_no_markup(entry.current);
    if entry.previous is Some {
        lemma_base64_has_no_markup(entry.previous->0);
    }
    assert forall|i: int| 0 <= i < escaped(entry.path).len() implies escaped(entry.path)[i]
        != '"' by {
        assert(!is_markup(escaped(entry.path)[i]));
    }
    assert forall|i: int| 0 <= i < base64_text(entry.current).len() implies base64_text(
        entry.current,
    )[i] != '"' by {
        assert(!is_markup(base64_text(entry.current)[i]));
    }
    assert forall|i: int| 0 <= i < previous_text(entry.previous).len() implies previous_text(
        entry.previous,
    )[i] != '"' by {
        assert(!is_markup(base64_text(entry.previous->0)[i]));
    }
    reveal_strlit("true");
    reveal_strlit("false");
}

/// The page is self-contained: the element of a file holds all there is to know
/// of it, so that two files with the same element have the same path, the same
/// current contents and the same previous contents or none.
pub proof fn lemma_element_determines_file(a: EntryView, b: EntryView)
    requires
        file_element(a) == file_element(b),
    ensures
        a.path == b.path,
        a.previous == b.previous,
        a.current == b.current,
{
    lemma_element_parts(a);
    lemma_element_parts(b);
    reveal_strlit(r#"" data-has-previous=""#);
    reveal_strlit(r#"" data-previous=""#);
    reveal_strlit(r#"" data-current=""#);
    reveal_strlit(r#""></div>"#);
    reveal_strlit("true");
    reveal_strlit("false");
    lemma_cancel(
        r#"<div data-file data-path=""#@,
        escaped(a.path) + element_has_previous(a),
        escaped(b.path) + element_has_previous(b),
    );
    lemma_first_quote(
        escaped(a.path),
        element_has_previous(a),
        escaped(b.path),
        element_has_previous(b),
    );
    lemma_escape_is_injective(a.path, b.path);
    lemma_cancel(
        r#"" data-has-previous=""#@,
        truth(a.previous is Some) + element_previous(a),
        truth(b.previous is Some) + element_previous(b),
    );
    lemma_first_quote(
        truth(a.previous is Some),
        element_previous(a),
        truth(b.previous is Some),
        element_previous(b),
    );
    lemma_cancel(
        r#"" data-previous=""#@,
        previous_text(a.previous) + element_current(a),
        previous_text(b.previous) + element_current(b),
    );
    lemma_first_quote(
        previous_text(a.previous),
        element_current(a),
        previous_text(b.previous),
        element_current(b),
    );
    assert(truth(true).len() != truth(false).len());
    if a.previous is Some {
        lemma_base64_is_injective(a.previous->0, b.previous->0);
    }
    lemma_cancel(
        r#"" data-current=""#@,
        base64_text(a.current) + r#""></div>"#@,
        base64_text(b.current) + r#""></div>"#@,
    );
    lemma_first_quote(
        base64_text(a.current),
        r#""></div>"#@,
        base64_text(b.current),
        r#""></div>"#@,
    );
    lemma_base64_is_injective(a.current, b.current);
}

/// Whether `part` occurs in `text`.
pub open spec fn occurs(part: Seq<char>, text: Seq<char>) -> bool {
    exists|before: Seq<char>, after: Seq<char>| text == #[trigger] (before + part + after)
}

proof fn lemma_occurs_in_part(part: Seq<char>, head: Seq<char>, middle: Seq<char>, tail: Seq<char>)
    requires
        occurs(part, middle),
    ensures
        occurs(part, head + middle + tail),
{
    let (before, after) = choose|before: Seq<char>, after: Seq<char>|
        middle == #[trigger] (before + part + after);
    assert((head + before) + part + (after + tail) =~= head + middle + tail);
}

proof fn lemma_button_occurs(entries: Seq<EntryView>, i: int)
    requires
        0 <= i < entries.len(),
    ensures
        occurs(file_button(i as nat, entries[i]), file_buttons(entries)),
    decreases entries.len(),
{
    let button = file_button((entries.len() - 1) as nat, entries.last());
    let before = file_buttons(entries.drop_last());
    if i == entries.len() - 1 {
        assert(before + button + Seq::empty() =~= file_buttons(entries));
    } else {
        lemma_button_occurs(entries.drop_last(), i);
        lemma_occurs_in_part(
            file_button(i as nat, entries[i]),
            Seq::empty(),
            before,
            button,
        );
        assert(Seq::empty() + before + button =~= file_buttons(entries));
    }
}

proof fn lemma_element_occurs(entries: Seq<EntryView>, i: int)
    requires
        0 <= i < entries.len(),
    ensures
        occurs(file_element(entries[i]), file_elements(entries)),
    decreases entries.len(),
{
    let element = file_element(entries.last());
    let before = file_elements(entries.drop_last());
    if i == entries.len() - 1 {
        assert(before + element + Seq::empty() =~= file_elements(entries));
    } else {
        lemma_element_occurs(entries.drop_last(), i);
        lemma_occurs_in_part(file_element(entries[i]), Seq::empty(), before, element);
        assert(Seq::empty() + before + element =~= file_elements(entries));
    }
}

/// The page up to the list of buttons.
spec fn page_before_buttons(entries: Seq<EntryView>) -> Seq<char> {
    PAGE_START@ + "<title>SVG comparison — "@ + escaped(entries[0].path) + "</title>"@ + page_style()
        + r#"<span class="file-count">"#@ + file_count(entries.len()) + "</span>"@
        + PAGE_FILE_LIST@ + r#"<nav class="file-list" aria-label="SVG files">"#@
}

/// The page between the buttons and the elements.
spec fn page_after_buttons() -> Seq<char> {
    "</nav>"@ + PAGE_FILE_DATA@ + r#"<div id="file-data" hidden>"#@
}

/// The page between the elements and the script element.
spec fn page_after_elements(entries: Seq<EntryView>) -> Seq<char> {
    "</div>"@ + PAGE_HEADER@ + r#"<div class="path" id="selected-path">"#@ + escaped(
        entries[0].path,
    ) + "</div>"@ + PAGE_TOOLBAR@
        + r#"<div class="mode-switcher" id="mode-switcher" role="group" aria-label="Comparison mode""#@
        + hidden_unless(entries[0].previous is Some) + ">"@ + mode_controls()
        + r#"<main class="comparison" id="comparison" data-mode="side-by-side" data-has-previous=""#@
        + truth(entries[0].previous is Some) + r#"">"#@ + panels()
}

/// The page after the script element.
spec fn page_after_script() -> Seq<char> {
    script_selection() + script_display() + script_input() + script_rest()
}

proof fn lemma_regrouped(a: Seq<char>, b: Seq<char>, c: Seq<char>)
    ensures
        a + (b + c) == a + b + c,
{
    assert(a + (b + c) =~= a + b + c);
}

proof fn lemma_page_parts(entries: Seq<EntryView>)
    requires
        entries.len() > 0,
    ensures
        page(entries) == page_before_buttons(entries) + file_buttons(entries)
            + page_after_buttons() + file_elements(entries) + page_after_elements(entries)
            + script_element() + page_after_script(),
{
    let has_previous = entries[0].previous is Some;
    let a = page_before_buttons(entries) + file_buttons(entries);
    let data = r#"<div id="file-data" hidden>"#@;
    lemma_regrouped(a, "</nav>"@ + PAGE_FILE_DATA@, data);
    lemma_regrouped(a, "</nav>"@, PAGE_FILE_DATA@);
    let b = a + page_after_buttons() + file_elements(entries);
    let path = r#"<div class="path" id="selected-path">"#@;
    let modes =
        r#"<div class="mode-switcher" id="mode-switcher" role="group" aria-label="Comparison mode""#@;
    let main =
        r#"<main class="comparison" id="comparison" data-mode="side-by-side" data-has-previous=""#@;
    let t1 = "</div>"@;
    let t2 = t1 + PAGE_HEADER@;
    let t3 = t2 + path;
    let t4 = t3 + escaped(entries[0].path);
    let t5 = t4 + "</div>"@;
    let t6 = t5 + PAGE_TOOLBAR@;
    let t7 = t6 + modes;
    let t8 = t7 + hidden_unless(has_previous);
    let t9 = t8 + ">"@;
    let t10 = t9 + mode_controls();
    let t11 = t10 + main;
    let t12 = t11 + truth(has_previous);
    let t13 = t12 + r#"">"#@;
    lemma_regrouped(b, t1, PAGE_HEADER@);
    lemma_regrouped(b, t2, path);
    lemma_regrouped(b, t3, escaped(entries[0].path));
    lemma_regrouped(b, t4, "</div>"@);
    lemma_regrouped(b, t5, PAGE_TOOLBAR@);
    lemma_regrouped(b, t6, modes);
    lemma_regrouped(b, t7, hidden_unless(has_previous));
    lemma_regrouped(b, t8, ">"@);
    lemma_regrouped(b, t9, mode_controls());
    lemma_regrouped(b, t10, main);
    lemma_regrouped(b, t11, truth(has_previous));
    lemma_regrouped(b, t12, r#"">"#@);
    lemma_regrouped(b, t13, panels());
    let c = b + page_after_elements(entries) + script_element();
    lemma_regrouped(c, script_selection() + script_display() + script_input(), script_rest());
    lemma_regrouped(c, script_selection() + script_display(), script_input());
    lemma_regrouped(c, script_selection(), script_display());
}

/// What occurs in one of several texts occurs in all of them together.
proof fn lemma_occurs_in_concat(
    part: Seq<char>,
    a: Seq<char>,
    b: Seq<char>,
    c: Seq<char>,
    d: Seq<char>,
    e: Seq<char>,
    f: Seq<char>,
    g: Seq<char>,
)
    requires
        occurs(part, a) || occurs(part, b) || occurs(part, d) || occurs(part, e) || occurs(part, f)
            || occurs(part, g),
    ensures
        occurs(part, a + b + c + d + e + f + g),
{
    let all = a + b + c + d + e + f + g;
    let none = Seq::<char>::empty();
    if occurs(part, a) {
        lemma_occurs_in_part(part, none, a, b + c + d + e + f + g);
        assert(none + a + (b + c + d + e + f + g) =~= all);
    } else if occurs(part, b) {
        lemma_occurs_in_part(part, a, b, c + d + e + f + g);
        assert(a + b + (c + d + e + f + g) =~= all);
    } else if occurs(part, d) {
        lemma_occurs_in_part(part, a + b + c, d, e + f + g);
        assert(a + b + c + d + (e + f + g) =~= all);
    } else if occurs(part, e) {
        lemma_occurs_in_part(part, a + b + c + d, e, f + g);
        assert(a + b + c + d + e + (f + g) =~= all);
    } else if occurs(part, f) {
        lemma_occurs_in_part(part, a + b + c + d + e, f, g);
    } else {
        lemma_occurs_in_part(part, a + b + c + d + e + f, g, none);
        assert(all + none =~= all);
    }
}

/// What occurs before the buttons, in them, in the elements, after them, in the script
/// element or after it occurs in the page.
proof fn lemma_occurs_in_page(part: Seq<char>, entries: Seq<EntryView>)
    requires
        entries.len() > 0,
        occurs(part, page_before_buttons(entries)) || occurs(part, file_buttons(entries)) || occurs(
            part,
            file_elements(entries),
        ) || occurs(part, page_after_elements(entries)) || occurs(part, script_element()) || occurs(
            part,
            page_after_script(),
        ),
    ensures
        occurs(part, page(entries)),
{
    lemma_page_parts(entries);
    lemma_occurs_in_concat(
        part,
        page_before_buttons(entries),
        file_buttons(entries),
        page_after_buttons(),
        file_elements(entries),
        page_after_elements(entries),
        script_element(),
        page_after_script(),
    );
}

/// What occurs in the style occurs in the page.
pub(crate) proof fn lemma_occurs_in_style(part: Seq<char>, entries: Seq<EntryView>)
    requires
        entries.len() > 0,
        occurs(part, page_style()),
    ensures
        occurs(part, page(entries)),
{
    let head = PAGE_START@ + "<title>SVG comparison — "@ + escaped(entries[0].path) + "</title>"@;
    let tail = r#"<span class="file-count">"#@ + file_count(entries.len()) + "</span>"@
        + PAGE_FILE_LIST@ + r#"<nav class="file-list" aria-label="SVG files">"#@;
    assert(page_before_buttons(entries) =~= head + page_style() + tail);
    lemma_occurs_in_part(part, head, page_style(), tail);
    lemma_occurs_in_page(part, entries);
}

/// What occurs in the controls of the modes occurs in the page.
pub(crate) proof fn lemma_occurs_in_mode_controls(part: Seq<char>, entries: Seq<EntryView>)
    requires
        entries.len() > 0,
        occurs(part, mode_controls()),
    ensures
        occurs(part, page(entries)),
{
    let after = page_after_elements(entries);
    let main =
        r#"<main class="comparison" id="comparison" data-mode="side-by-side" data-has-previous=""#@;
    let tail = main + truth(entries[0].previous is Some) + r#"">"#@ + panels();
    let head = after.take(after.len() - tail.len() - mode_controls().len());
    assert(after =~= head + mode_controls() + tail);
    lemma_occurs_in_part(part, head, mode_controls(), tail);
    lemma_occurs_in_page(part, entries);
}

/// What occurs in the panels occurs in the page.
pub(crate) proof fn lemma_occurs_in_panels(part: Seq<char>, entries: Seq<EntryView>)
    requires
        entries.len() > 0,
        occurs(part, panels()),
    ensures
        occurs(part, page(entries)),
{
    let none = Seq::<char>::empty();
    let after = page_after_elements(entries);
    let before = after.take(after.len() - panels().len());
    assert(after =~= before + panels() + none);
    lemma_occurs_in_part(part, before, panels(), none);
    lemma_occurs_in_page(part, entries);
}

/// What occurs in the script of the page occurs in the page.
pub(crate) proof fn lemma_occurs_in_script(part: Seq<char>, entries: Seq<EntryView>)
    requires
        entries.len() > 0,
        occurs(part, script_selection()) || occurs(part, script_display()) || occurs(
            part,
            script_input(),
        ) || occurs(part, script_rest()),
    ensures
        occurs(part, page(entries)),
{
    let none = Seq::<char>::empty();
    let script = none + script_selection() + none + script_display() + none + script_input()
        + script_rest();
    lemma_occurs_in_concat(
        part,
        none,
        script_selection(),
        none,
        script_display(),
        none,
        script_input(),
        script_rest(),
    );
    assert(none + script_selection() + none =~= script_selection());
    assert(script_selection() + script_display() + none =~= script_selection() + script_display());
    lemma_occurs_in_page(part, entries);
}

/// The page lists every file: the button of each, under its index, and the
/// element with its two versions occur in it.
pub proof fn lemma_every_file_is_listed(entries: Seq<EntryView>, i: int)
    requires
        0 <= i < entries.len(),
    ensures
        occurs(file_button(i as nat, entries[i]), page(entries)),
        occurs(file_element(entries[i]), page(entries)),
{
    lemma_button_occurs(entries, i);
    lemma_element_occurs(entries, i);
    lemma_occurs_in_page(file_button(i as nat, entries[i]), entries);
    lemma_occurs_in_page(file_element(entries[i]), entries);
}

/// The markup of a concatenation, for every two texts.
proof fn lemma_markup_concat_all()
    ensures
        forall|a: Seq<char>, b: Seq<char>| #[trigger]
            markup_in(a + b) == markup_in(a) + markup_in(b),
{
    assert forall|a: Seq<char>, b: Seq<char>| #[trigger]
        markup_in(a + b) == markup_in(a) + markup_in(b) by {
        lemma_markup_concat(a, b);
    }
}

/// What a page says of a file has no markup.
proof fn lemma_values_have_no_markup(entry: EntryView)
    ensures
        markup_in(escaped(entry.path)) == Seq::<char>::empty(),
        markup_in(escaped(entry.name)) == Seq::<char>::empty(),
        markup_in(previous_text(entry.previous)) == Seq::<char>::empty(),
        markup_in(base64_text(entry.current)) == Seq::<char>::empty(),
        markup_in(truth(entry.previous is Some)) == Seq::<char>::empty(),
        markup_in(hidden_unless(entry.previous is Some)) == Seq::<char>::empty(),
{
    lemma_escaped_has_no_markup(entry.path);
    lemma_no_markup(escaped(entry.path));
    lemma_escaped_has_no_markup(entry.name);
    lemma_no_markup(escaped(entry.name));
    if let Some(previous) = entry.previous {
        lemma_base64_has_no_markup(previous);
    }
    lemma_no_markup(previous_text(entry.previous));
    lemma_base64_has_no_markup(entry.current);
    lemma_no_markup(base64_text(entry.current));
    reveal_strlit("true");
    reveal_strlit("false");
    lemma_no_markup(truth(entry.previous is Some));
    reveal_strlit("");
    reveal_strlit(" hidden");
    lemma_no_markup(hidden_unless(entry.previous is Some));
}

/// The buttons of as many files have the same markup.
proof fn lemma_buttons_markup(a: Seq<EntryView>, b: Seq<EntryView>)
    requires
        a.len() == b.len(),
    ensures
        markup_in(file_buttons(a)) == markup_in(file_buttons(b)),
    decreases a.len(),
{
    if a.len() > 0 {
        lemma_buttons_markup(a.drop_last(), b.drop_last());
        lemma_markup_concat_all();
        lemma_values_have_no_markup(a.last());
        lemma_values_have_no_markup(b.last());
    }
}

/// The elements of as many files have the same markup.
proof fn lemma_elements_markup(a: Seq<EntryView>, b: Seq<EntryView>)
    requires
        a.len() == b.len(),
    ensures
        markup_in(file_elements(a)) == markup_in(file_elements(b)),
    decreases a.len(),
{
    if a.len() > 0 {
        lemma_elements_markup(a.drop_last(), b.drop_last());
        lemma_markup_concat_all();
        lemma_values_have_no_markup(a.last());
        lemma_values_have_no_markup(b.last());
    }
}

/// No path, name or content can add a tag to the page or end a quoted value in it:
/// the markup characters of the page, in order, depend on the number of files
/// alone.
pub proof fn lemma_page_markup_depends_on_count(a: Seq<EntryView>, b: Seq<EntryView>)
    requires
        a.len() == b.len(),
    ensures
        markup_in(page(a)) == markup_in(page(b)),
{
    if a.len() > 0 {
        lemma_buttons_markup(a, b);
        lemma_elements_markup(a, b);
        lemma_markup_concat_all();
        lemma_values_have_no_markup(a[0]);
        lemma_values_have_no_markup(b[0]);
    }
}

/// The page loads the lifecycle script from the address that it is served at.
pub proof fn lemma_page_loads_lifecycle_script(entries: Seq<EntryView>)
    requires
        entries.len() > 0,
    ensures
        occurs(r#"<script src=""#@ + LIFECYCLE_SCRIPT_ROUTE@ + r#""></script>"#@, page(entries)),
        occurs(r#"<script src=""#@ + "/lifecycle.js"@ + r#""></script>"#@, page(entries)),
{
    let script = script_element();
    assert(Seq::empty() + script + Seq::empty() =~= script);
    assert(occurs(script, script));
    lemma_occurs_in_page(script, entries);
}

} // verus!
