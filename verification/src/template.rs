//! The fixed parts of the comparison page.

use vstd::prelude::*;

verus! {

/// The document up to its title.
pub const PAGE_START: &'static str = r#"<!doctype html>
<html lang="en">
<head>
  <meta charset="utf-8">
  <meta name="viewport" content="width=device-width, initial-scale=1">
  <meta name="color-scheme" content="dark">
  "#;

/// From the title to the style of the panels.
pub const PAGE_STYLE: &'static str = r#"
  <style>
    :root {
      color-scheme: dark;
      font-family: ui-sans-serif, system-ui, -apple-system, BlinkMacSystemFont, "Segoe UI", sans-serif;
      background: #111318;
      color: #eceff4;
    }
    * { box-sizing: border-box; }
    [hidden] { display: none !important; }
    body { margin: 0; min-height: 100vh; }
    .app-shell {
      display: grid;
      grid-template-columns: minmax(14rem, 20rem) minmax(0, 1fr);
      min-height: 100vh;
    }
    .app-shell[data-sidebar-hidden="true"] {
      grid-template-columns: minmax(0, 1fr);
    }
    .app-shell[data-sidebar-hidden="true"] > .file-sidebar {
      display: none;
    }
    .file-sidebar {
      position: sticky;
      top: 0;
      height: 100vh;
      overflow: auto;
      border-right: 1px solid #343944;
      background: #181b21;
    }
    .file-list-heading {
      display: flex;
      align-items: baseline;
      justify-content: space-between;
      gap: 1rem;
      padding: 1rem;
      border-bottom: 1px solid #343944;
      font-size: 0.95rem;
      font-weight: 600;
    }
    .file-count {
      color: #8c96a8;
      font-size: 0.75rem;
      font-weight: 400;
    }
    .file-list {
      display: grid;
    }
    .file-button {
      width: 100%;
      border: 0;
      border-bottom: 1px solid #2b303a;
      border-left: 3px solid transparent;
      padding: 0.75rem 1rem;
      background: transparent;
      color: #aeb6c5;
      cursor: pointer;
      font-family: ui-monospace, SFMono-Regular, Menlo, Monaco, Consolas, monospace;
      font-size: 0.8rem;
      line-height: 1.4;
      overflow-wrap: anywhere;
      text-align: left;
    }
    .file-button:hover {
      background: #242832;
      color: #eceff4;
    }
    .file-button[aria-current="true"] {
      border-left-color: #2f81f7;
      background: #1f6feb26;
      color: #fff;
    }
    .content { min-width: 0; }
    header {
      padding: 1rem 1.25rem;
      border-bottom: 1px solid #343944;
      background: #181b21;
    }
    h1 { margin: 0 0 0.35rem; font-size: 1.1rem; }
    .path {
      color: #aeb6c5;
      font-family: ui-monospace, SFMono-Regular, Menlo, Monaco, Consolas, monospace;
      font-size: 0.85rem;
      overflow-wrap: anywhere;
    }
    .toolbar {
      display: flex;
      flex-wrap: wrap;
      align-items: center;
      gap: 1rem;
      margin-top: 1rem;
    }
    .sidebar-toggle {
      border: 1px solid #454b59;
      border-radius: 0.4rem;
      padding: 0.55rem 0.85rem;
      background: #242832;
      color: #d8dee9;
      cursor: pointer;
      font: inherit;
      font-size: 0.85rem;
    }
    .sidebar-toggle:hover { background: #303642; }
    .mode-switcher {
      display: inline-flex;
      overflow: hidden;
      border: 1px solid #454b59;
      border-radius: 0.4rem;
    }
    .mode-button {
      border: 0;
      border-right: 1px solid #454b59;
      padding: 0.55rem 0.85rem;
      background: #242832;
      color: #d8dee9;
      cursor: pointer;
      font: inherit;
      font-size: 0.85rem;
    }
    .mode-button:last-child { border-right: 0; }
    .mode-button:hover { background: #303642; }
    .mode-button[aria-pressed="true"] {
      background: #0969da;
      color: #fff;
    }
    .file-button:focus-visible,
    .sidebar-toggle:focus-visible,
    .mode-button:focus-visible,
    input[type="range"]:focus-visible {
      outline: 2px solid #58a6ff;
      outline-offset: -2px;
    }
    .mode-control {
      display: flex;
      align-items: center;
      gap: 0.65rem;
      color: #c5ccd8;
      font-size: 0.85rem;
    }
    .mode-control input {
      width: min(16rem, 40vw);
      accent-color: #2f81f7;
    }
    .mode-control output {
      min-width: 3.25rem;
      color: #fff;
      font-variant-numeric: tabular-nums;
    }
    .comparison {
      --onion-opacity: 0.5;
      --swipe-position: 50%;
      display: grid;
      grid-template-columns: repeat(2, minmax(0, 1fr));
      gap: 1rem;
      padding: 1rem;
    }
    .comparison section {
      min-width: 0;
      overflow: hidden;
      border: 1px solid #343944;
      border-radius: 0.5rem;
      background: #181b21;
    }
    .comparison h2 {
      margin: 0;
      padding: 0.75rem 1rem;
      border-bottom: 1px solid #343944;
      font-size: 0.95rem;
    }
    .viewport {
      overflow: auto;
      padding: 1rem;
      background-color: #242832;
      background-image:
        linear-gradient(45deg, #2b303b 25%, transparent 25%),
        linear-gradient(-45deg, #2b303b 25%, transparent 25%),
        linear-gradient(45deg, transparent 75%, #2b303b 75%),
        linear-gradient(-45deg, transparent 75%, #2b303b 75%);
      background-position: 0 0, 0 8px, 8px -8px, -8px 0;
      background-size: 16px 16px;
    }
    img {
      display: block;
      width: 100%;
      height: auto;
      user-select: none;
      -webkit-user-drag: none;
    }
    "#;

/// When each panel is shown.
pub const STYLE_PANELS: &'static str = r#".overlay-panel { display: none; }
    .comparison[data-mode="onion"],
    .comparison[data-mode="swipe"] {
      grid-template-columns: minmax(0, 1fr);
    }
    .comparison[data-mode="onion"] .side-by-side-panel,
    .comparison[data-mode="swipe"] .side-by-side-panel {
      display: none;
    }
    .comparison[data-mode="onion"] .overlay-panel,
    .comparison[data-mode="swipe"] .overlay-panel {
      display: block;
    }
    .comparison[data-has-previous="false"] {
      grid-template-columns: minmax(0, 1fr);
    }
    .comparison[data-has-previous="false"] .previous-panel,
    .comparison[data-has-previous="false"] .overlay-panel {
      display: none;
    }
    .comparison[data-has-previous="false"] .current-panel {
      display: block;
    }"#;

/// What precedes [`STYLE_OVERLAYS`].
pub const STYLE_STACK: &'static str = r#"
    .overlay-viewport { padding: 1rem; }
    .image-stack {
      position: relative;
      display: grid;
      overflow: hidden;
      isolation: isolate;
    }
    .image-stack > img {
      grid-area: 1 / 1;
      align-self: start;
      pointer-events: none;
    }
    "#;

/// How the current version is laid over the previous one.
pub const STYLE_OVERLAYS: &'static str = r#".previous-overlay { z-index: 1; }
    .current-overlay {
      z-index: 2;
      opacity: var(--onion-opacity);
    }
    .comparison[data-mode="swipe"] .image-stack {
      cursor: ew-resize;
      touch-action: none;
    }
    .comparison[data-mode="swipe"] .current-overlay {
      opacity: 1;
      clip-path: inset(0 0 0 var(--swipe-position));
    }"#;

/// From the style of the overlays to the number of files.
pub const STYLE_REST: &'static str = r#"
    .overlay-label {
      position: absolute;
      z-index: 3;
      top: 0.75rem;
      padding: 0.3rem 0.5rem;
      border: 1px solid #596273;
      border-radius: 0.3rem;
      background: rgb(17 19 24 / 85%);
      color: #fff;
      font-size: 0.75rem;
      font-weight: 600;
      pointer-events: none;
    }
    .label-previous { left: 0.75rem; }
    .label-current { right: 0.75rem; }
    .swipe-handle {
      position: absolute;
      z-index: 4;
      top: 0;
      bottom: 0;
      left: var(--swipe-position);
      width: 2.5rem;
      transform: translateX(-50%);
      cursor: ew-resize;
    }
    .swipe-handle::before {
      position: absolute;
      top: 0;
      bottom: 0;
      left: calc(50% - 1px);
      width: 2px;
      background: #fff;
      box-shadow: 0 0 0 1px rgb(0 0 0 / 50%);
      content: "";
    }
    .swipe-handle::after {
      position: absolute;
      top: 50%;
      left: 50%;
      display: grid;
      width: 2rem;
      height: 2rem;
      transform: translate(-50%, -50%);
      place-items: center;
      border: 2px solid #fff;
      border-radius: 50%;
      background: #0969da;
      box-shadow: 0 1px 4px rgb(0 0 0 / 60%);
      color: #fff;
      content: "↔";
      font-size: 1rem;
      line-height: 1;
    }
    .comparison[data-mode="onion"] .swipe-handle { display: none; }
    @media (max-width: 48rem) {
      .app-shell { grid-template-columns: minmax(0, 1fr); }
      .file-sidebar {
        position: static;
        height: auto;
        max-height: 40vh;
        border-right: 0;
        border-bottom: 1px solid #343944;
      }
    }
  </style>
</head>
<body>
  <div class="app-shell" id="app-shell">
    <aside class="file-sidebar" id="file-sidebar">
      <div class="file-list-heading">
        <span>Files</span>
        "#;

/// From the number of files to the list of files.
pub const PAGE_FILE_LIST: &'static str = r#"
      </div>
      "#;

/// From the list of files to the file data.
pub const PAGE_FILE_DATA: &'static str = r#"
      "#;

/// From the file data to the path in the header.
pub const PAGE_HEADER: &'static str = r#"
    </aside>
    <div class="content">
      <header>
        <h1>SVG comparison</h1>
        "#;

/// From the path in the header to the mode switcher.
pub const PAGE_TOOLBAR: &'static str = r#"
        <div class="toolbar">
          <button class="sidebar-toggle" id="sidebar-toggle" type="button" aria-controls="file-sidebar" aria-expanded="true">Hide files</button>
          "#;

/// The buttons of the mode switcher.
pub const MODE_BUTTONS: &'static str = r#"
            <button class="mode-button" type="button" data-mode-button="side-by-side" aria-pressed="true">Side by side</button>
            <button class="mode-button" type="button" data-mode-button="onion" aria-pressed="false">Onion skin</button>
            <button class="mode-button" type="button" data-mode-button="swipe" aria-pressed="false">Swipe</button>"#;

/// From the buttons of the mode switcher to the comparison.
pub const PAGE_MODES: &'static str = r#"
          </div>
          <div class="mode-control" id="onion-control" hidden>
            <label for="onion-opacity">Current opacity</label>
            <input id="onion-opacity" type="range" min="0" max="100" value="50">
            <output id="onion-output" for="onion-opacity">50%</output>
          </div>
          <div class="mode-control" id="swipe-control" hidden>
            <label for="swipe-position">Divider position</label>
            <input id="swipe-position" type="range" min="0" max="100" value="50">
            <output id="swipe-output" for="swipe-position">50%</output>
          </div>
        </div>
      </header>
      "#;

/// Where the previous version is shown.
pub const PREVIOUS_PANEL: &'static str = r#"
        <section class="side-by-side-panel previous-panel">
          <h2>Previous (HEAD)</h2>
          <div class="viewport">
            <img id="previous-image" alt="Previous SVG at HEAD" draggable="false">
          </div>
        </section>"#;

/// Where the current version is shown.
pub const CURRENT_PANEL: &'static str = r#"
        <section class="side-by-side-panel current-panel">
          <h2>Current (working tree)</h2>
          <div class="viewport">
            <img id="current-image" alt="Current SVG in the working tree" draggable="false">
          </div>
        </section>"#;

/// Where both are shown, one over the other.
pub const OVERLAY_PANEL: &'static str = r#"
        <section class="overlay-panel">
          <h2 id="overlay-title">Overlay comparison</h2>
          <div class="viewport overlay-viewport">
            <div class="image-stack" id="image-stack">
              <img class="previous-overlay" id="previous-overlay-image" alt="Previous SVG at HEAD" draggable="false">
              <img class="current-overlay" id="current-overlay-image" alt="Current SVG in the working tree" draggable="false">
              <span class="overlay-label label-previous">Previous</span>
              <span class="overlay-label label-current">Current</span>
              <div class="swipe-handle" aria-hidden="true"></div>
            </div>
          </div>
        </section>"#;

/// From the panels to the element that loads the lifecycle script.
pub const PAGE_COMPARISON: &'static str = r#"
      </main>
    </div>
  </div>
  "#;

/// What precedes [`SCRIPT_LISTS`].
pub const SCRIPT_OPENING: &'static str = r#"
  <script>
    (() => {
      "use strict";

      const appShell = document.getElementById("app-shell");
      const sidebarToggle = document.getElementById("sidebar-toggle");
      const comparison = document.getElementById("comparison");
      const modeSwitcher = document.getElementById("mode-switcher");
      const modeButtons = Array.from(document.querySelectorAll("[data-mode-button]"));
      const onionControl = document.getElementById("onion-control");
      const onionRange = document.getElementById("onion-opacity");
      const onionOutput = document.getElementById("onion-output");
      const swipeControl = document.getElementById("swipe-control");
      const swipeRange = document.getElementById("swipe-position");
      const swipeOutput = document.getElementById("swipe-output");
      const overlayTitle = document.getElementById("overlay-title");
      const imageStack = document.getElementById("image-stack");
      const selectedPath = document.getElementById("selected-path");
      "#;

/// The lists of buttons and of files, in the order of the document.
pub const SCRIPT_LISTS: &'static str = r#"const fileButtons = Array.from(document.querySelectorAll("[data-file-index]"));
      const files = Array.from(document.querySelectorAll("[data-file]"));"#;

/// What precedes [`SCRIPT_IMAGES`].
pub const SCRIPT_VIEWPORTS: &'static str = r#"
      const viewports = Array.from(document.querySelectorAll(".viewport"));
      "#;

/// The images of both versions.
pub const SCRIPT_IMAGES: &'static str = r#"const previousImages = [
        document.getElementById("previous-image"),
        document.getElementById("previous-overlay-image"),
      ];
      const currentImages = [
        document.getElementById("current-image"),
        document.getElementById("current-overlay-image"),
      ];"#;

/// What precedes [`SCRIPT_MODE_CONTROLS`].
pub const SCRIPT_CONTROLS: &'static str = r#"
      let currentFileIndex = 0;

      const clampPercentage = (value) => Math.min(100, Math.max(0, Number(value)));

      const setSidebarVisible = (isVisible) => {
        appShell.dataset.sidebarHidden = String(!isVisible);
        sidebarToggle.setAttribute("aria-expanded", String(isVisible));
        sidebarToggle.textContent = isVisible ? "Hide files" : "Show files";
      };

      "#;

/// Modes can be chosen where there is a previous version.
pub const SCRIPT_MODE_CONTROLS: &'static str = r#"const updateModeControls = () => {
        const hasPrevious = comparison.dataset.hasPrevious === "true";
        const mode = comparison.dataset.mode;
        modeSwitcher.hidden = !hasPrevious;
        onionControl.hidden = !hasPrevious || mode !== "onion";
        swipeControl.hidden = !hasPrevious || mode !== "swipe";
      };"#;

/// What precedes [`SCRIPT_SELECTED`].
pub const SCRIPT_SELECTION: &'static str = r#"

      "#;

/// How a file is selected: by its index in the list of files.
pub const SCRIPT_SELECTED: &'static str = r#"const setFile = (index) => {
        currentFileIndex = index;
        const file = files[index];
        const path = file.dataset.path;
        const hasPrevious = file.dataset.hasPrevious === "true";
        const currentSource = "data:image/svg+xml;base64," + file.dataset.current;"#;

/// What precedes [`SCRIPT_MARKED`].
pub const SCRIPT_BUTTONS: &'static str = r#"

        fileButtons.forEach((button, buttonIndex) => {
          "#;

/// How its button is marked.
pub const SCRIPT_MARKED: &'static str = r#"button.setAttribute("aria-current", String(buttonIndex === index));"#;

/// What precedes [`SCRIPT_PREVIOUS`].
pub const SCRIPT_OLD_IMAGES: &'static str = r#"
        });
        previousImages.forEach((image) => {
          "#;

/// How its previous version is shown.
pub const SCRIPT_PREVIOUS: &'static str = r#"if (hasPrevious) {
            image.src = "data:image/svg+xml;base64," + file.dataset.previous;"#;

/// What precedes [`SCRIPT_CURRENT`].
pub const SCRIPT_OTHER_IMAGES: &'static str = r#"
            image.alt = "Previous version of " + path + " at HEAD";
          } else {
            image.removeAttribute("src");
            image.alt = "";
          }
        });
        "#;

/// How its current version is shown.
pub const SCRIPT_CURRENT: &'static str = r#"currentImages.forEach((image) => {
          image.src = currentSource;"#;

/// What precedes [`SCRIPT_SHOWN_PATH`].
pub const SCRIPT_COMPARISON: &'static str = r#"
          image.alt = "Current working-tree version of " + path;
        });
        "#;

/// How its path is shown.
pub const SCRIPT_SHOWN_PATH: &'static str = r#"comparison.dataset.hasPrevious = String(hasPrevious);
        updateModeControls();
        selectedPath.textContent = path;
        document.title = "SVG comparison — " + path;"#;

/// What precedes [`SCRIPT_OVERLAYS`].
pub const SCRIPT_SCROLLS: &'static str = r#"
        viewports.forEach((viewport) => viewport.scrollTo(0, 0));
      };

      "#;

/// How the two versions are laid one over the other.
pub const SCRIPT_OVERLAYS: &'static str = r#"const updateOnionOpacity = (value) => {
        const percentage = clampPercentage(value);
        comparison.style.setProperty("--onion-opacity", String(percentage / 100));
        onionOutput.textContent = Math.round(percentage) + "%";
      };

      const updateSwipePosition = (value) => {
        const percentage = clampPercentage(value);
        comparison.style.setProperty("--swipe-position", percentage + "%");
        swipeOutput.textContent = Math.round(percentage) + "%";
      };

      "#;

/// How a mode is chosen.
pub const SCRIPT_MODES: &'static str = r#"const setMode = (mode) => {
        comparison.dataset.mode = mode;
        modeButtons.forEach((button) => {
          button.setAttribute("aria-pressed", String(button.dataset.modeButton === mode));
        });
        updateModeControls();
        overlayTitle.textContent = mode === "onion" ? "Onion skin" : "Swipe";
      };

      modeButtons.forEach((button) => {
        button.addEventListener("click", () => setMode(button.dataset.modeButton));
      });"#;

/// What precedes [`SCRIPT_CLICKS`].
pub const SCRIPT_TOGGLES: &'static str = r#"
      sidebarToggle.addEventListener("click", () => {
        const isVisible = appShell.dataset.sidebarHidden !== "true";
        setSidebarVisible(!isVisible);
      });
      "#;

/// Each button selects its file.
pub const SCRIPT_CLICKS: &'static str = r#"fileButtons.forEach((button, index) => {
        button.addEventListener("click", () => setFile(index));"#;

/// What precedes [`SCRIPT_ENDS`].
pub const SCRIPT_PRESSES: &'static str = r#"
        button.addEventListener("keydown", (event) => {
          "#;

/// The keys that move to the first and to the last file.
pub const SCRIPT_ENDS: &'static str = r#"let nextIndex = null;
          if (event.key === "Home") {
            nextIndex = 0;
          } else if (event.key === "End") {
            nextIndex = fileButtons.length - 1;
          }

          if (nextIndex !== null) {
            event.preventDefault();
            fileButtons[nextIndex].focus();
            setFile(nextIndex);
          }"#;

/// What precedes [`SCRIPT_OTHER_KEYS`].
pub const SCRIPT_KEYS: &'static str = r#"
        });
      });
      document.addEventListener("keydown", (event) => {
        "#;

/// Other keys are left alone.
pub const SCRIPT_OTHER_KEYS: &'static str = r#"if (
          event.key !== "ArrowDown" &&
          event.key !== "ArrowUp" &&
          event.key !== "j" &&
          event.key !== "k"
        ) {
          return;
        }"#;

/// What precedes [`SCRIPT_MOVES`].
pub const SCRIPT_TAKES: &'static str = r#"

        event.preventDefault();
        "#;

/// The keys that move to the next and to the previous file.
pub const SCRIPT_MOVES: &'static str = r#"const direction = event.key === "ArrowDown" || event.key === "j" ? 1 : -1;
        const nextIndex = Math.min(
          fileButtons.length - 1,
          Math.max(0, currentFileIndex + direction),
        );
        const shouldMoveFocus = fileButtons.includes(document.activeElement);
        setFile(nextIndex);"#;

/// What precedes [`SCRIPT_ENTER`].
pub const SCRIPT_FOCUS: &'static str = r#"
        fileButtons[nextIndex].scrollIntoView({ block: "nearest" });
        if (shouldMoveFocus) {
          fileButtons[nextIndex].focus();
        }
      });
      document.addEventListener("keydown", async (event) => {
        const focused = document.activeElement;
        const onOtherControl =
          focused !== null &&
          focused.matches("button, input") &&
          !fileButtons.includes(focused);
        "#;

/// Enter squashes the file on view.
pub const SCRIPT_ENTER: &'static str = r#"if (event.key !== "Enter" || event.repeat || onOtherControl) {
          return;
        }

        event.preventDefault();
        const response = await fetch(""#;

/// What is squashed is the file on view.
pub const SCRIPT_SQUASHED: &'static str = r#"" + currentFileIndex, {
          method: "POST","#;

/// What precedes [`SCRIPT_REFUSED`].
pub const SCRIPT_REPLY: &'static str = r#"
          cache: "no-store",
        }).catch(() => null);
        "#;

/// Where that has failed, the file stays on view.
pub const SCRIPT_REFUSED: &'static str = r#"if (response === null || !response.ok) {
          return;
        }"#;

/// What precedes [`SCRIPT_ADVANCES`].
pub const SCRIPT_NEXT: &'static str = r#"

        "#;

/// After that the page moves on to the file that the server names.
pub const SCRIPT_ADVANCES: &'static str = r#"const nextIndex = Number(await response.text());
        setFile(nextIndex);"#;

/// What precedes [`SCRIPT_RANGES`].
pub const SCRIPT_REVEALS: &'static str = r#"
        fileButtons[nextIndex].scrollIntoView({ block: "nearest" });
        if (fileButtons.includes(document.activeElement)) {
          fileButtons[nextIndex].focus();
        }
      });
      "#;

/// What moves the overlays.
pub const SCRIPT_RANGES: &'static str = r#"onionRange.addEventListener("input", () => updateOnionOpacity(onionRange.value));
      swipeRange.addEventListener("input", () => updateSwipePosition(swipeRange.value));

      const updateSwipeFromPointer = (event) => {
        const bounds = imageStack.getBoundingClientRect();
        const percentage = ((event.clientX - bounds.left) / bounds.width) * 100;
        const roundedPercentage = Math.round(clampPercentage(percentage));
        swipeRange.value = String(roundedPercentage);
        updateSwipePosition(roundedPercentage);
      };"#;

/// What precedes [`SCRIPT_BEGINS`].
pub const SCRIPT_POINTER: &'static str = r#"

      let activePointer = null;
      imageStack.addEventListener("pointerdown", (event) => {
        if (comparison.dataset.mode !== "swipe" || event.button !== 0) {
          return;
        }
        activePointer = event.pointerId;
        imageStack.setPointerCapture(event.pointerId);
        updateSwipeFromPointer(event);
      });
      imageStack.addEventListener("pointermove", (event) => {
        if (event.pointerId === activePointer) {
          updateSwipeFromPointer(event);
        }
      });
      imageStack.addEventListener("pointerup", (event) => {
        if (event.pointerId === activePointer) {
          activePointer = null;
          imageStack.releasePointerCapture(event.pointerId);
        }
      });
      imageStack.addEventListener("pointercancel", () => {
        activePointer = null;
      });

      updateOnionOpacity(onionRange.value);
      updateSwipePosition(swipeRange.value);
      "#;

/// The page begins with the first file.
pub const SCRIPT_BEGINS: &'static str = r#"setSidebarVisible(true);
      setFile(0);
      setMode("side-by-side");"#;

/// The end of the document.
pub const SCRIPT_CLOSING: &'static str = r#"
    })();
  </script>
</body>
</html>
"#;

} // verus!
