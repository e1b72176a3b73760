//! Keyboard shortcut configuration and the small option enums of the
//! editor settings, with their display labels.
//!
//! Modifier labels are the ones shown on Linux and Windows ("Ctrl", "Alt").

use vstd::prelude::*;
use crate::text::chars_vec;
use crate::input::InputModifiers;

verus! {

broadcast use vstd::string::group_string_axioms;

/// Joins labels with "+" between them.
pub open spec fn join_plus(parts: Seq<Seq<char>>) -> Seq<char>
    decreases parts.len(),
{
    if parts.len() == 0 {
        Seq::<char>::empty()
    } else if parts.len() == 1 {
        parts[0]
    } else {
        join_plus(parts.drop_last()) + "+"@ + parts.last()
    }
}

/// Modifier keys of a shortcut.
#[derive(Debug, Clone, Copy, PartialEq, Eq, Structural, Hash)]
pub struct KeyModifiers {
    /// Ctrl (Command on macOS).
    pub ctrl: bool,
    /// Shift.
    pub shift: bool,
    /// Alt (Option on macOS).
    pub alt: bool,
    /// The physical Ctrl key on every platform.
    pub raw_ctrl: bool,
}

impl KeyModifiers {
    /// The labels of the pressed modifiers, in display order, on macOS
    /// (`macos`) or elsewhere: Ctrl shows as "Cmd" and Alt as "Option" on
    /// macOS; the physical Ctrl (`raw_ctrl`) always shows as "Ctrl".
    pub open spec fn spec_parts_on(self, macos: bool) -> Seq<Seq<char>> {
        (if self.raw_ctrl {
            seq!["Ctrl"@]
        } else if self.ctrl {
            seq![if macos { "Cmd"@ } else { "Ctrl"@ }]
        } else {
            Seq::<Seq<char>>::empty()
        }) + (if self.shift { seq!["Shift"@] } else { Seq::<Seq<char>>::empty() }) + (if self.alt {
            seq![if macos { "Option"@ } else { "Alt"@ }]
        } else {
            Seq::<Seq<char>>::empty()
        })
    }

    /// The labels of the pressed modifiers on Windows and Linux.
    pub open spec fn spec_parts(self) -> Seq<Seq<char>> {
        self.spec_parts_on(false)
    }

    /// Only Ctrl/Command.
    pub fn ctrl() -> (m: Self)
        ensures
            m == (KeyModifiers { ctrl: true, shift: false, alt: false, raw_ctrl: false }),
    {
        KeyModifiers { ctrl: true, shift: false, alt: false, raw_ctrl: false }
    }

    /// Ctrl/Command with Shift.
    pub fn ctrl_shift() -> (m: Self)
        ensures
            m == (KeyModifiers { ctrl: true, shift: true, alt: false, raw_ctrl: false }),
    {
        KeyModifiers { ctrl: true, shift: true, alt: false, raw_ctrl: false }
    }

    /// Only Alt.
    pub fn alt() -> (m: Self)
        ensures
            m == (KeyModifiers { ctrl: false, shift: false, alt: true, raw_ctrl: false }),
    {
        KeyModifiers { ctrl: false, shift: false, alt: true, raw_ctrl: false }
    }

    /// Only Shift.
    pub fn shift() -> (m: Self)
        ensures
            m == (KeyModifiers { ctrl: false, shift: true, alt: false, raw_ctrl: false }),
    {
        KeyModifiers { ctrl: false, shift: true, alt: false, raw_ctrl: false }
    }

    /// No modifier.
    pub fn none() -> (m: Self)
        ensures
            m == (KeyModifiers { ctrl: false, shift: false, alt: false, raw_ctrl: false }),
    {
        KeyModifiers { ctrl: false, shift: false, alt: false, raw_ctrl: false }
    }

    /// Only the physical Ctrl key.
    pub fn raw_ctrl() -> (m: Self)
        ensures
            m == (KeyModifiers { ctrl: false, shift: false, alt: false, raw_ctrl: true }),
    {
        KeyModifiers { ctrl: false, shift: false, alt: false, raw_ctrl: true }
    }

    /// The pressed modifiers joined with "+" as shown on macOS (`macos`,
    /// e.g. "Cmd+Shift") or elsewhere (e.g. "Ctrl+Shift").
    pub fn display_string_on(&self, macos: bool) -> (s: String)
        ensures
            s@ == join_plus(self.spec_parts_on(macos)),
    {
        let mut s = String::new();
        let mut first = true;
        let ghost mut parts: Seq<Seq<char>> = Seq::empty();
        assert(join_plus(parts) == Seq::<char>::empty());
        if self.raw_ctrl || self.ctrl {
            let label = if self.raw_ctrl || !macos { "Ctrl" } else { "Cmd" };
            s.append(label);
            first = false;
            proof {
                parts = parts.push(label@);
                assert(join_plus(parts) == label@);
            }
        }
        if self.shift {
            if !first {
                s.append("+");
            }
            s.append("Shift");
            first = false;
            proof {
                let p0 = parts;
                parts = parts.push("Shift"@);
                assert(parts.drop_last() =~= p0);
                if p0.len() == 0 {
                    assert(join_plus(parts) == "Shift"@);
                } else {
                    assert(join_plus(parts) == join_plus(p0) + "+"@ + "Shift"@);
                }
            }
        }
        if self.alt {
            if !first {
                s.append("+");
            }
            let label = if macos { "Option" } else { "Alt" };
            s.append(label);
            proof {
                let p0 = parts;
                parts = parts.push(label@);
                assert(parts.drop_last() =~= p0);
                if p0.len() == 0 {
                    assert(join_plus(parts) == label@);
                } else {
                    assert(join_plus(parts) == join_plus(p0) + "+"@ + label@);
                }
            }
        }
        proof {
            assert(parts =~= self.spec_parts_on(macos));
        }
        s
    }

    /// The pressed modifiers joined with "+" as shown on Windows and Linux,
    /// e.g. "Ctrl+Shift" (see `display_string_on` for macOS).
    pub fn display_string(&self) -> (s: String)
        ensures
            s@ == join_plus(self.spec_parts()),
    {
        self.display_string_on(false)
    }
}

impl Default for KeyModifiers {
    /// No modifier pressed.
    fn default() -> (m: Self)
        ensures
            m == (KeyModifiers { ctrl: false, shift: false, alt: false, raw_ctrl: false }),
    {
        Self::none()
    }
}

/// Keys that can be bound to shortcuts.
#[derive(Debug, Clone, Copy, PartialEq, Eq, Structural, Hash)]
pub enum KeyCode {
    A,
    B,
    C,
    D,
    E,
    F,
    G,
    H,
    I,
    J,
    K,
    L,
    M,
    N,
    O,
    P,
    Q,
    R,
    S,
    T,
    U,
    V,
    W,
    X,
    Y,
    Z,
    Num0,
    Num1,
    Num2,
    Num3,
    Num4,
    Num5,
    Num6,
    Num7,
    Num8,
    Num9,
    F1,
    F2,
    F3,
    F4,
    F5,
    F6,
    F7,
    F8,
    F9,
    F10,
    F11,
    F12,
    Escape,
    Tab,
    Backspace,
    Enter,
    Space,
    ArrowLeft,
    ArrowRight,
    ArrowUp,
    ArrowDown,
    Home,
    End,
    PageUp,
    PageDown,
    Insert,
    Delete,
    Comma,
    Period,
    Semicolon,
    Colon,
    OpenBracket,
    CloseBracket,
    Backslash,
    Slash,
    Minus,
    Equals,
    Backtick,
}

impl KeyCode {
    /// The display label of a key.
    pub open spec fn spec_display(self) -> Seq<char> {
        match self {
            KeyCode::A => "A"@,
            KeyCode::B => "B"@,
            KeyCode::C => "C"@,
            KeyCode::D => "D"@,
            KeyCode::E => "E"@,
            KeyCode::F => "F"@,
            KeyCode::G => "G"@,
            KeyCode::H => "H"@,
            KeyCode::I => "I"@,
            KeyCode::J => "J"@,
            KeyCode::K => "K"@,
            KeyCode::L => "L"@,
            KeyCode::M => "M"@,
            KeyCode::N => "N"@,
            KeyCode::O => "O"@,
            KeyCode::P => "P"@,
            KeyCode::Q => "Q"@,
            KeyCode::R => "R"@,
            KeyCode::S => "S"@,
            KeyCode::T => "T"@,
            KeyCode::U => "U"@,
            KeyCode::V => "V"@,
            KeyCode::W => "W"@,
            KeyCode::X => "X"@,
            KeyCode::Y => "Y"@,
            KeyCode::Z => "Z"@,
            KeyCode::Num0 => "0"@,
            KeyCode::Num1 => "1"@,
            KeyCode::Num2 => "2"@,
            KeyCode::Num3 => "3"@,
            KeyCode::Num4 => "4"@,
            KeyCode::Num5 => "5"@,
            KeyCode::Num6 => "6"@,
            KeyCode::Num7 => "7"@,
            KeyCode::Num8 => "8"@,
            KeyCode::Num9 => "9"@,
            KeyCode::F1 => "F1"@,
            KeyCode::F2 => "F2"@,
            KeyCode::F3 => "F3"@,
            KeyCode::F4 => "F4"@,
            KeyCode::F5 => "F5"@,
            KeyCode::F6 => "F6"@,
            KeyCode::F7 => "F7"@,
            KeyCode::F8 => "F8"@,
            KeyCode::F9 => "F9"@,
            KeyCode::F10 => "F10"@,
            KeyCode::F11 => "F11"@,
            KeyCode::F12 => "F12"@,
            KeyCode::Escape => "Esc"@,
            KeyCode::Tab => "Tab"@,
            KeyCode::Backspace => "Backspace"@,
            KeyCode::Enter => "Enter"@,
            KeyCode::Space => "Space"@,
            KeyCode::ArrowLeft => "\u{2190}"@,
            KeyCode::ArrowRight => "\u{2192}"@,
            KeyCode::ArrowUp => "\u{2191}"@,
            KeyCode::ArrowDown => "\u{2193}"@,
            KeyCode::Home => "Home"@,
            KeyCode::End => "End"@,
            KeyCode::PageUp => "PgUp"@,
            KeyCode::PageDown => "PgDn"@,
            KeyCode::Insert => "Ins"@,
            KeyCode::Delete => "Del"@,
            KeyCode::Comma => ","@,
            KeyCode::Period => "."@,
            KeyCode::Semicolon => ";"@,
            KeyCode::Colon => ":"@,
            KeyCode::OpenBracket => "["@,
            KeyCode::CloseBracket => "]"@,
            KeyCode::Backslash => "\\"@,
            KeyCode::Slash => "/"@,
            KeyCode::Minus => "-"@,
            KeyCode::Equals => "="@,
            KeyCode::Backtick => "`"@,
        }
    }

    /// Display label for the key (arrows are shown as arrow symbols).
    pub fn display_string(&self) -> (s: &'static str)
        ensures
            s@ == self.spec_display(),
    {
        match self {
            KeyCode::A => "A",
            KeyCode::B => "B",
            KeyCode::C => "C",
            KeyCode::D => "D",
            KeyCode::E => "E",
            KeyCode::F => "F",
            KeyCode::G => "G",
            KeyCode::H => "H",
            KeyCode::I => "I",
            KeyCode::J => "J",
            KeyCode::K => "K",
            KeyCode::L => "L",
            KeyCode::M => "M",
            KeyCode::N => "N",
            KeyCode::O => "O",
            KeyCode::P => "P",
            KeyCode::Q => "Q",
            KeyCode::R => "R",
            KeyCode::S => "S",
            KeyCode::T => "T",
            KeyCode::U => "U",
            KeyCode::V => "V",
            KeyCode::W => "W",
            KeyCode::X => "X",
            KeyCode::Y => "Y",
            KeyCode::Z => "Z",
            KeyCode::Num0 => "0",
            KeyCode::Num1 => "1",
            KeyCode::Num2 => "2",
            KeyCode::Num3 => "3",
            KeyCode::Num4 => "4",
            KeyCode::Num5 => "5",
            KeyCode::Num6 => "6",
            KeyCode::Num7 => "7",
            KeyCode::Num8 => "8",
            KeyCode::Num9 => "9",
            KeyCode::F1 => "F1",
            KeyCode::F2 => "F2",
            KeyCode::F3 => "F3",
            KeyCode::F4 => "F4",
            KeyCode::F5 => "F5",
            KeyCode::F6 => "F6",
            KeyCode::F7 => "F7",
            KeyCode::F8 => "F8",
            KeyCode::F9 => "F9",
            KeyCode::F10 => "F10",
            KeyCode::F11 => "F11",
            KeyCode::F12 => "F12",
            KeyCode::Escape => "Esc",
            KeyCode::Tab => "Tab",
            KeyCode::Backspace => "Backspace",
            KeyCode::Enter => "Enter",
            KeyCode::Space => "Space",
            KeyCode::ArrowLeft => "\u{2190}",
            KeyCode::ArrowRight => "\u{2192}",
            KeyCode::ArrowUp => "\u{2191}",
            KeyCode::ArrowDown => "\u{2193}",
            KeyCode::Home => "Home",
            KeyCode::End => "End",
            KeyCode::PageUp => "PgUp",
            KeyCode::PageDown => "PgDn",
            KeyCode::Insert => "Ins",
            KeyCode::Delete => "Del",
            KeyCode::Comma => ",",
            KeyCode::Period => ".",
            KeyCode::Semicolon => ";",
            KeyCode::Colon => ":",
            KeyCode::OpenBracket => "[",
            KeyCode::CloseBracket => "]",
            KeyCode::Backslash => "\\",
            KeyCode::Slash => "/",
            KeyCode::Minus => "-",
            KeyCode::Equals => "=",
            KeyCode::Backtick => "`",
        }
    }
}

/// A keyboard shortcut: modifiers and a key.
#[derive(Debug, Clone, Copy, PartialEq, Eq, Structural, Hash)]
pub struct KeyBinding {
    /// Modifier keys.
    pub modifiers: KeyModifiers,
    /// The main key.
    pub key: KeyCode,
}

impl KeyBinding {
    /// The label of a binding on macOS (`macos`) or elsewhere: the
    /// modifiers and the key joined with "+".
    pub open spec fn spec_display_on(self, macos: bool) -> Seq<char> {
        let mods = join_plus(self.modifiers.spec_parts_on(macos));
        if mods.len() == 0 {
            self.key.spec_display()
        } else {
            mods + "+"@ + self.key.spec_display()
        }
    }

    /// The label of a binding on Windows and Linux.
    pub open spec fn spec_display(self) -> Seq<char> {
        self.spec_display_on(false)
    }

    /// A binding of `key` with `modifiers`.
    pub fn new(modifiers: KeyModifiers, key: KeyCode) -> (b: Self)
        ensures
            b.modifiers == modifiers,
            b.key == key,
    {
        KeyBinding { modifiers, key }
    }

    /// Whether the held modifiers are exactly this binding's: with
    /// `raw_ctrl` the physical Ctrl key (and not Command), otherwise the
    /// Command key (Ctrl off macOS) standing for Ctrl; Shift and Alt must
    /// agree either way.
    pub open spec fn spec_modifiers_match(self, m: InputModifiers) -> bool {
        if self.modifiers.raw_ctrl {
            m.ctrl && !m.command && m.shift == self.modifiers.shift && m.alt == self.modifiers.alt
        } else {
            m.command == self.modifiers.ctrl && m.shift == self.modifiers.shift && m.alt == self.modifiers.alt
        }
    }

    /// Whether the binding fires: the modifiers held match it and its key
    /// was pressed this frame (`key_pressed`, read from the input state for
    /// this binding's key).
    pub fn matches(&self, modifiers: &InputModifiers, key_pressed: bool) -> (r: bool)
        ensures
            r == (self.spec_modifiers_match(*modifiers) && key_pressed),
    {
        let mods_match = if self.modifiers.raw_ctrl {
            modifiers.ctrl && !modifiers.command && modifiers.shift == self.modifiers.shift
                && modifiers.alt == self.modifiers.alt
        } else {
            modifiers.command == self.modifiers.ctrl && modifiers.shift == self.modifiers.shift
                && modifiers.alt == self.modifiers.alt
        };
        mods_match && key_pressed
    }

    /// The label of the binding as shown on macOS (`macos`, e.g. "Cmd+S")
    /// or elsewhere (e.g. "Ctrl+S").
    pub fn display_string_on(&self, macos: bool) -> (s: String)
        ensures
            s@ == self.spec_display_on(macos),
    {
        let mut mods = self.modifiers.display_string_on(macos);
        let key = self.key.display_string();
        if mods.as_str().is_empty() {
            String::from_str(key)
        } else {
            mods.append("+");
            mods.append(key);
            mods
        }
    }

    /// The label of the binding as shown on Windows and Linux, e.g.
    /// "Ctrl+S" (see `display_string_on` for macOS).
    pub fn display_string(&self) -> (s: String)
        ensures
            s@ == self.spec_display(),
    {
        self.display_string_on(false)
    }
}

/// Commands that can be bound to keyboard shortcuts.
#[derive(Debug, Clone, Copy, PartialEq, Eq, Structural, Hash)]
pub enum ShortcutCommand {
    Save,
    SaveAs,
    Open,
    New,
    NewTab,
    CloseTab,
    NextTab,
    PrevTab,
    GoToLine,
    QuickOpen,
    ToggleViewMode,
    CycleTheme,
    ToggleZenMode,
    ToggleFullscreen,
    ToggleOutline,
    ToggleFileTree,
    TogglePipeline,
    ToggleTerminal,
    ToggleProductivityHub,
    Undo,
    Redo,
    DeleteLine,
    DuplicateLine,
    MoveLineUp,
    MoveLineDown,
    SelectNextOccurrence,
    Find,
    FindReplace,
    FindNext,
    FindPrev,
    SearchInFiles,
    FormatBold,
    FormatItalic,
    FormatInlineCode,
    FormatCodeBlock,
    FormatLink,
    FormatImage,
    FormatBlockquote,
    FormatBulletList,
    FormatNumberedList,
    FormatHeading1,
    FormatHeading2,
    FormatHeading3,
    FormatHeading4,
    FormatHeading5,
    FormatHeading6,
    FoldAll,
    UnfoldAll,
    ToggleFoldAtCursor,
    OpenSettings,
    OpenAbout,
    ExportHtml,
    InsertToc,
}

impl ShortcutCommand {
    /// The display name of a command.
    pub open spec fn spec_display_name(self) -> Seq<char> {
        match self {
            ShortcutCommand::Save => "Save"@,
            ShortcutCommand::SaveAs => "Save As"@,
            ShortcutCommand::Open => "Open File"@,
            ShortcutCommand::New => "New File"@,
            ShortcutCommand::NewTab => "New Tab"@,
            ShortcutCommand::CloseTab => "Close Tab"@,
            ShortcutCommand::NextTab => "Next Tab"@,
            ShortcutCommand::PrevTab => "Previous Tab"@,
            ShortcutCommand::GoToLine => "Go to Line"@,
            ShortcutCommand::QuickOpen => "Quick Open"@,
            ShortcutCommand::ToggleViewMode => "Toggle View Mode"@,
            ShortcutCommand::CycleTheme => "Cycle Theme"@,
            ShortcutCommand::ToggleZenMode => "Toggle Zen Mode"@,
            ShortcutCommand::ToggleFullscreen => "Toggle Fullscreen"@,
            ShortcutCommand::ToggleOutline => "Toggle Outline"@,
            ShortcutCommand::ToggleFileTree => "Toggle File Tree"@,
            ShortcutCommand::TogglePipeline => "Toggle Pipeline"@,
            ShortcutCommand::ToggleTerminal => "Toggle Terminal"@,
            ShortcutCommand::ToggleProductivityHub => "Toggle Productivity Hub"@,
            ShortcutCommand::Undo => "Undo"@,
            ShortcutCommand::Redo => "Redo"@,
            ShortcutCommand::DeleteLine => "Delete Line"@,
            ShortcutCommand::DuplicateLine => "Duplicate Line"@,
            ShortcutCommand::MoveLineUp => "Move Line Up"@,
            ShortcutCommand::MoveLineDown => "Move Line Down"@,
            ShortcutCommand::SelectNextOccurrence => "Select Next Occurrence"@,
            ShortcutCommand::Find => "Find"@,
            ShortcutCommand::FindReplace => "Find & Replace"@,
            ShortcutCommand::FindNext => "Find Next"@,
            ShortcutCommand::FindPrev => "Find Previous"@,
            ShortcutCommand::SearchInFiles => "Search in Files"@,
            ShortcutCommand::FormatBold => "Bold"@,
            ShortcutCommand::FormatItalic => "Italic"@,
            ShortcutCommand::FormatInlineCode => "Inline Code"@,
            ShortcutCommand::FormatCodeBlock => "Code Block"@,
            ShortcutCommand::FormatLink => "Link"@,
            ShortcutCommand::FormatImage => "Image"@,
            ShortcutCommand::FormatBlockquote => "Blockquote"@,
            ShortcutCommand::FormatBulletList => "Bullet List"@,
            ShortcutCommand::FormatNumberedList => "Numbered List"@,
            ShortcutCommand::FormatHeading1 => "Heading 1"@,
            ShortcutCommand::FormatHeading2 => "Heading 2"@,
            ShortcutCommand::FormatHeading3 => "Heading 3"@,
            ShortcutCommand::FormatHeading4 => "Heading 4"@,
            ShortcutCommand::FormatHeading5 => "Heading 5"@,
            ShortcutCommand::FormatHeading6 => "Heading 6"@,
            ShortcutCommand::FoldAll => "Fold All"@,
            ShortcutCommand::UnfoldAll => "Unfold All"@,
            ShortcutCommand::ToggleFoldAtCursor => "Toggle Fold"@,
            ShortcutCommand::OpenSettings => "Open Settings"@,
            ShortcutCommand::OpenAbout => "Open About"@,
            ShortcutCommand::ExportHtml => "Export HTML"@,
            ShortcutCommand::InsertToc => "Insert/Update TOC"@,
        }
    }

    /// The category a command is listed under.
    pub open spec fn spec_category(self) -> Seq<char> {
        match self {
            ShortcutCommand::Save => "File"@,
            ShortcutCommand::SaveAs => "File"@,
            ShortcutCommand::Open => "File"@,
            ShortcutCommand::New => "File"@,
            ShortcutCommand::NewTab => "File"@,
            ShortcutCommand::CloseTab => "File"@,
            ShortcutCommand::NextTab => "Navigation"@,
            ShortcutCommand::PrevTab => "Navigation"@,
            ShortcutCommand::GoToLine => "Navigation"@,
            ShortcutCommand::QuickOpen => "Navigation"@,
            ShortcutCommand::ToggleViewMode => "View"@,
            ShortcutCommand::CycleTheme => "View"@,
            ShortcutCommand::ToggleZenMode => "View"@,
            ShortcutCommand::ToggleFullscreen => "View"@,
            ShortcutCommand::ToggleOutline => "View"@,
            ShortcutCommand::ToggleFileTree => "View"@,
            ShortcutCommand::TogglePipeline => "View"@,
            ShortcutCommand::ToggleTerminal => "View"@,
            ShortcutCommand::ToggleProductivityHub => "View"@,
            ShortcutCommand::Undo => "Edit"@,
            ShortcutCommand::Redo => "Edit"@,
            ShortcutCommand::DeleteLine => "Edit"@,
            ShortcutCommand::DuplicateLine => "Edit"@,
            ShortcutCommand::MoveLineUp => "Edit"@,
            ShortcutCommand::MoveLineDown => "Edit"@,
            ShortcutCommand::SelectNextOccurrence => "Edit"@,
            ShortcutCommand::Find => "Search"@,
            ShortcutCommand::FindReplace => "Search"@,
            ShortcutCommand::FindNext => "Search"@,
            ShortcutCommand::FindPrev => "Search"@,
            ShortcutCommand::SearchInFiles => "Search"@,
            ShortcutCommand::FormatBold => "Format"@,
            ShortcutCommand::FormatItalic => "Format"@,
            ShortcutCommand::FormatInlineCode => "Format"@,
            ShortcutCommand::FormatCodeBlock => "Format"@,
            ShortcutCommand::FormatLink => "Format"@,
            ShortcutCommand::FormatImage => "Format"@,
            ShortcutCommand::FormatBlockquote => "Format"@,
            ShortcutCommand::FormatBulletList => "Format"@,
            ShortcutCommand::FormatNumberedList => "Format"@,
            ShortcutCommand::FormatHeading1 => "Format"@,
            ShortcutCommand::FormatHeading2 => "Format"@,
            ShortcutCommand::FormatHeading3 => "Format"@,
            ShortcutCommand::FormatHeading4 => "Format"@,
            ShortcutCommand::FormatHeading5 => "Format"@,
            ShortcutCommand::FormatHeading6 => "Format"@,
            ShortcutCommand::FoldAll => "Folding"@,
            ShortcutCommand::UnfoldAll => "Folding"@,
            ShortcutCommand::ToggleFoldAtCursor => "Folding"@,
            ShortcutCommand::OpenSettings => "Other"@,
            ShortcutCommand::OpenAbout => "Other"@,
            ShortcutCommand::ExportHtml => "Other"@,
            ShortcutCommand::InsertToc => "Other"@,
        }
    }

    /// The default binding of a command, as (ctrl, shift, alt, raw ctrl) and key.
    pub open spec fn spec_default_binding(self) -> KeyBinding {
        match self {
            ShortcutCommand::Save => KeyBinding { modifiers: KeyModifiers { ctrl: true, shift: false, alt: false, raw_ctrl: false }, key: KeyCode::S },
            ShortcutCommand::SaveAs => KeyBinding { modifiers: KeyModifiers { ctrl: true, shift: true, alt: false, raw_ctrl: false }, key: KeyCode::S },
            ShortcutCommand::Open => KeyBinding { modifiers: KeyModifiers { ctrl: true, shift: false, alt: false, raw_ctrl: false }, key: KeyCode::O },
            ShortcutCommand::New => KeyBinding { modifiers: KeyModifiers { ctrl: true, shift: false, alt: false, raw_ctrl: false }, key: KeyCode::N },
            ShortcutCommand::NewTab => KeyBinding { modifiers: KeyModifiers { ctrl: true, shift: false, alt: false, raw_ctrl: false }, key: KeyCode::T },
            ShortcutCommand::CloseTab => KeyBinding { modifiers: KeyModifiers { ctrl: true, shift: false, alt: false, raw_ctrl: false }, key: KeyCode::W },
            ShortcutCommand::NextTab => KeyBinding { modifiers: KeyModifiers { ctrl: true, shift: false, alt: false, raw_ctrl: false }, key: KeyCode::Tab },
            ShortcutCommand::PrevTab => KeyBinding { modifiers: KeyModifiers { ctrl: true, shift: true, alt: false, raw_ctrl: false }, key: KeyCode::Tab },
            ShortcutCommand::GoToLine => KeyBinding { modifiers: KeyModifiers { ctrl: true, shift: false, alt: false, raw_ctrl: false }, key: KeyCode::G },
            ShortcutCommand::QuickOpen => KeyBinding { modifiers: KeyModifiers { ctrl: true, shift: false, alt: false, raw_ctrl: false }, key: KeyCode::P },
            ShortcutCommand::ToggleViewMode => KeyBinding { modifiers: KeyModifiers { ctrl: true, shift: false, alt: false, raw_ctrl: false }, key: KeyCode::E },
            ShortcutCommand::CycleTheme => KeyBinding { modifiers: KeyModifiers { ctrl: true, shift: true, alt: false, raw_ctrl: false }, key: KeyCode::T },
            ShortcutCommand::ToggleZenMode => KeyBinding { modifiers: KeyModifiers { ctrl: false, shift: false, alt: false, raw_ctrl: false }, key: KeyCode::F11 },
            ShortcutCommand::ToggleFullscreen => KeyBinding { modifiers: KeyModifiers { ctrl: false, shift: false, alt: false, raw_ctrl: false }, key: KeyCode::F10 },
            ShortcutCommand::ToggleOutline => KeyBinding { modifiers: KeyModifiers { ctrl: true, shift: true, alt: false, raw_ctrl: false }, key: KeyCode::O },
            ShortcutCommand::ToggleFileTree => KeyBinding { modifiers: KeyModifiers { ctrl: true, shift: true, alt: false, raw_ctrl: false }, key: KeyCode::E },
            ShortcutCommand::TogglePipeline => KeyBinding { modifiers: KeyModifiers { ctrl: true, shift: true, alt: false, raw_ctrl: false }, key: KeyCode::L },
            ShortcutCommand::ToggleTerminal => KeyBinding { modifiers: KeyModifiers { ctrl: true, shift: false, alt: false, raw_ctrl: false }, key: KeyCode::Backtick },
            ShortcutCommand::ToggleProductivityHub => KeyBinding { modifiers: KeyModifiers { ctrl: true, shift: true, alt: false, raw_ctrl: false }, key: KeyCode::H },
            ShortcutCommand::Undo => KeyBinding { modifiers: KeyModifiers { ctrl: true, shift: false, alt: false, raw_ctrl: false }, key: KeyCode::Z },
            ShortcutCommand::Redo => KeyBinding { modifiers: KeyModifiers { ctrl: true, shift: false, alt: false, raw_ctrl: false }, key: KeyCode::Y },
            ShortcutCommand::DeleteLine => KeyBinding { modifiers: KeyModifiers { ctrl: true, shift: false, alt: false, raw_ctrl: false }, key: KeyCode::D },
            ShortcutCommand::DuplicateLine => KeyBinding { modifiers: KeyModifiers { ctrl: true, shift: true, alt: false, raw_ctrl: false }, key: KeyCode::D },
            ShortcutCommand::MoveLineUp => KeyBinding { modifiers: KeyModifiers { ctrl: false, shift: false, alt: true, raw_ctrl: false }, key: KeyCode::ArrowUp },
            ShortcutCommand::MoveLineDown => KeyBinding { modifiers: KeyModifiers { ctrl: false, shift: false, alt: true, raw_ctrl: false }, key: KeyCode::ArrowDown },
            ShortcutCommand::SelectNextOccurrence => KeyBinding { modifiers: KeyModifiers { ctrl: true, shift: true, alt: false, raw_ctrl: false }, key: KeyCode::G },
            ShortcutCommand::Find => KeyBinding { modifiers: KeyModifiers { ctrl: true, shift: false, alt: false, raw_ctrl: false }, key: KeyCode::F },
            ShortcutCommand::FindReplace => KeyBinding { modifiers: KeyModifiers { ctrl: true, shift: false, alt: false, raw_ctrl: false }, key: KeyCode::H },
            ShortcutCommand::FindNext => KeyBinding { modifiers: KeyModifiers { ctrl: false, shift: false, alt: false, raw_ctrl: false }, key: KeyCode::F3 },
            ShortcutCommand::FindPrev => KeyBinding { modifiers: KeyModifiers { ctrl: false, shift: true, alt: false, raw_ctrl: false }, key: KeyCode::F3 },
            ShortcutCommand::SearchInFiles => KeyBinding { modifiers: KeyModifiers { ctrl: true, shift: true, alt: false, raw_ctrl: false }, key: KeyCode::F },
            ShortcutCommand::FormatBold => KeyBinding { modifiers: KeyModifiers { ctrl: true, shift: false, alt: false, raw_ctrl: false }, key: KeyCode::B },
            ShortcutCommand::FormatItalic => KeyBinding { modifiers: KeyModifiers { ctrl: true, shift: false, alt: false, raw_ctrl: false }, key: KeyCode::I },
            ShortcutCommand::FormatInlineCode => KeyBinding { modifiers: KeyModifiers { ctrl: true, shift: true, alt: false, raw_ctrl: false }, key: KeyCode::Backtick },
            ShortcutCommand::FormatCodeBlock => KeyBinding { modifiers: KeyModifiers { ctrl: true, shift: true, alt: false, raw_ctrl: false }, key: KeyCode::C },
            ShortcutCommand::FormatLink => KeyBinding { modifiers: KeyModifiers { ctrl: true, shift: false, alt: false, raw_ctrl: false }, key: KeyCode::K },
            ShortcutCommand::FormatImage => KeyBinding { modifiers: KeyModifiers { ctrl: true, shift: true, alt: false, raw_ctrl: false }, key: KeyCode::K },
            ShortcutCommand::FormatBlockquote => KeyBinding { modifiers: KeyModifiers { ctrl: true, shift: false, alt: false, raw_ctrl: false }, key: KeyCode::Q },
            ShortcutCommand::FormatBulletList => KeyBinding { modifiers: KeyModifiers { ctrl: true, shift: true, alt: false, raw_ctrl: false }, key: KeyCode::B },
            ShortcutCommand::FormatNumberedList => KeyBinding { modifiers: KeyModifiers { ctrl: true, shift: true, alt: false, raw_ctrl: false }, key: KeyCode::N },
            ShortcutCommand::FormatHeading1 => KeyBinding { modifiers: KeyModifiers { ctrl: true, shift: false, alt: false, raw_ctrl: false }, key: KeyCode::Num1 },
            ShortcutCommand::FormatHeading2 => KeyBinding { modifiers: KeyModifiers { ctrl: true, shift: false, alt: false, raw_ctrl: false }, key: KeyCode::Num2 },
            ShortcutCommand::FormatHeading3 => KeyBinding { modifiers: KeyModifiers { ctrl: true, shift: false, alt: false, raw_ctrl: false }, key: KeyCode::Num3 },
            ShortcutCommand::FormatHeading4 => KeyBinding { modifiers: KeyModifiers { ctrl: true, shift: false, alt: false, raw_ctrl: false }, key: KeyCode::Num4 },
            ShortcutCommand::FormatHeading5 => KeyBinding { modifiers: KeyModifiers { ctrl: true, shift: false, alt: false, raw_ctrl: false }, key: KeyCode::Num5 },
            ShortcutCommand::FormatHeading6 => KeyBinding { modifiers: KeyModifiers { ctrl: true, shift: false, alt: false, raw_ctrl: false }, key: KeyCode::Num6 },
            ShortcutCommand::FoldAll => KeyBinding { modifiers: KeyModifiers { ctrl: true, shift: true, alt: false, raw_ctrl: false }, key: KeyCode::OpenBracket },
            ShortcutCommand::UnfoldAll => KeyBinding { modifiers: KeyModifiers { ctrl: true, shift: true, alt: false, raw_ctrl: false }, key: KeyCode::CloseBracket },
            ShortcutCommand::ToggleFoldAtCursor => KeyBinding { modifiers: KeyModifiers { ctrl: true, shift: true, alt: false, raw_ctrl: false }, key: KeyCode::Period },
            ShortcutCommand::OpenSettings => KeyBinding { modifiers: KeyModifiers { ctrl: true, shift: false, alt: false, raw_ctrl: false }, key: KeyCode::Comma },
            ShortcutCommand::OpenAbout => KeyBinding { modifiers: KeyModifiers { ctrl: false, shift: false, alt: false, raw_ctrl: false }, key: KeyCode::F1 },
            ShortcutCommand::ExportHtml => KeyBinding { modifiers: KeyModifiers { ctrl: true, shift: true, alt: false, raw_ctrl: false }, key: KeyCode::X },
            ShortcutCommand::InsertToc => KeyBinding { modifiers: KeyModifiers { ctrl: true, shift: true, alt: false, raw_ctrl: false }, key: KeyCode::U },
        }
    }

    /// Every command that can be bound, in display order.
    pub open spec fn spec_all() -> Seq<ShortcutCommand> {
        seq![ShortcutCommand::Save, ShortcutCommand::SaveAs, ShortcutCommand::Open, ShortcutCommand::New, ShortcutCommand::NewTab, ShortcutCommand::CloseTab, ShortcutCommand::NextTab, ShortcutCommand::PrevTab, ShortcutCommand::GoToLine, ShortcutCommand::QuickOpen, ShortcutCommand::ToggleViewMode, ShortcutCommand::CycleTheme, ShortcutCommand::ToggleZenMode, ShortcutCommand::ToggleFullscreen, ShortcutCommand::ToggleOutline, ShortcutCommand::ToggleFileTree, ShortcutCommand::TogglePipeline, ShortcutCommand::ToggleTerminal, ShortcutCommand::ToggleProductivityHub, ShortcutCommand::Undo, ShortcutCommand::Redo, ShortcutCommand::DeleteLine, ShortcutCommand::DuplicateLine, ShortcutCommand::MoveLineUp, ShortcutCommand::MoveLineDown, ShortcutCommand::SelectNextOccurrence, ShortcutCommand::Find, ShortcutCommand::FindReplace, ShortcutCommand::FindNext, ShortcutCommand::FindPrev, ShortcutCommand::SearchInFiles, ShortcutCommand::FormatBold, ShortcutCommand::FormatItalic, ShortcutCommand::FormatInlineCode, ShortcutCommand::FormatCodeBlock, ShortcutCommand::FormatLink, ShortcutCommand::FormatImage, ShortcutCommand::FormatBlockquote, ShortcutCommand::FormatBulletList, ShortcutCommand::FormatNumberedList, ShortcutCommand::FormatHeading1, ShortcutCommand::FormatHeading2, ShortcutCommand::FormatHeading3, ShortcutCommand::FormatHeading4, ShortcutCommand::FormatHeading5, ShortcutCommand::FormatHeading6, ShortcutCommand::FoldAll, ShortcutCommand::UnfoldAll, ShortcutCommand::ToggleFoldAtCursor, ShortcutCommand::OpenSettings, ShortcutCommand::OpenAbout, ShortcutCommand::ExportHtml, ShortcutCommand::InsertToc]
    }

    /// The place of a command in `spec_all`.
    pub open spec fn spec_index(self) -> int {
        match self {
            ShortcutCommand::Save => 0,
            ShortcutCommand::SaveAs => 1,
            ShortcutCommand::Open => 2,
            ShortcutCommand::New => 3,
            ShortcutCommand::NewTab => 4,
            ShortcutCommand::CloseTab => 5,
            ShortcutCommand::NextTab => 6,
            ShortcutCommand::PrevTab => 7,
            ShortcutCommand::GoToLine => 8,
            ShortcutCommand::QuickOpen => 9,
            ShortcutCommand::ToggleViewMode => 10,
            ShortcutCommand::CycleTheme => 11,
            ShortcutCommand::ToggleZenMode => 12,
            ShortcutCommand::ToggleFullscreen => 13,
            ShortcutCommand::ToggleOutline => 14,
            ShortcutCommand::ToggleFileTree => 15,
            ShortcutCommand::TogglePipeline => 16,
            ShortcutCommand::ToggleTerminal => 17,
            ShortcutCommand::ToggleProductivityHub => 18,
            ShortcutCommand::Undo => 19,
            ShortcutCommand::Redo => 20,
            ShortcutCommand::DeleteLine => 21,
            ShortcutCommand::DuplicateLine => 22,
            ShortcutCommand::MoveLineUp => 23,
            ShortcutCommand::MoveLineDown => 24,
            ShortcutCommand::SelectNextOccurrence => 25,
            ShortcutCommand::Find => 26,
            ShortcutCommand::FindReplace => 27,
            ShortcutCommand::FindNext => 28,
            ShortcutCommand::FindPrev => 29,
            ShortcutCommand::SearchInFiles => 30,
            ShortcutCommand::FormatBold => 31,
            ShortcutCommand::FormatItalic => 32,
            ShortcutCommand::FormatInlineCode => 33,
            ShortcutCommand::FormatCodeBlock => 34,
            ShortcutCommand::FormatLink => 35,
            ShortcutCommand::FormatImage => 36,
            ShortcutCommand::FormatBlockquote => 37,
            ShortcutCommand::FormatBulletList => 38,
            ShortcutCommand::FormatNumberedList => 39,
            ShortcutCommand::FormatHeading1 => 40,
            ShortcutCommand::FormatHeading2 => 41,
            ShortcutCommand::FormatHeading3 => 42,
            ShortcutCommand::FormatHeading4 => 43,
            ShortcutCommand::FormatHeading5 => 44,
            ShortcutCommand::FormatHeading6 => 45,
            ShortcutCommand::FoldAll => 46,
            ShortcutCommand::UnfoldAll => 47,
            ShortcutCommand::ToggleFoldAtCursor => 48,
            ShortcutCommand::OpenSettings => 49,
            ShortcutCommand::OpenAbout => 50,
            ShortcutCommand::ExportHtml => 51,
            ShortcutCommand::InsertToc => 52,
        }
    }

    /// `spec_all` lists every command exactly once: each command stands at
    /// its `spec_index`, and no command stands twice.
    pub proof fn lemma_all_complete(c: ShortcutCommand)
        ensures
            0 <= c.spec_index() < Self::spec_all().len(),
            Self::spec_all()[c.spec_index()] == c,
            Self::spec_all().contains(c),
            Self::spec_all().no_duplicates(),
    {
        let a = Self::spec_all();
        assert(a.len() == 53);
        assert(a[c.spec_index()] == c);
        assert forall|i: int| 0 <= i < a.len() implies (#[trigger] a[i]).spec_index() == i by {}
        assert forall|i: int, j: int| 0 <= i < a.len() && 0 <= j < a.len() && i != j implies a[i] != a[j] by {
            assert(a[i].spec_index() == i && a[j].spec_index() == j);
        }
    }

    /// All commands that can be bound, in display order.
    pub fn all() -> (r: &'static [ShortcutCommand])
        ensures
            r@ == Self::spec_all(),
            forall|c: ShortcutCommand| r@.contains(c),
            r@.no_duplicates(),
    {
        let r: &'static [ShortcutCommand] = &[ShortcutCommand::Save, ShortcutCommand::SaveAs, ShortcutCommand::Open, ShortcutCommand::New, ShortcutCommand::NewTab, ShortcutCommand::CloseTab, ShortcutCommand::NextTab, ShortcutCommand::PrevTab, ShortcutCommand::GoToLine, ShortcutCommand::QuickOpen, ShortcutCommand::ToggleViewMode, ShortcutCommand::CycleTheme, ShortcutCommand::ToggleZenMode, ShortcutCommand::ToggleFullscreen, ShortcutCommand::ToggleOutline, ShortcutCommand::ToggleFileTree, ShortcutCommand::TogglePipeline, ShortcutCommand::ToggleTerminal, ShortcutCommand::ToggleProductivityHub, ShortcutCommand::Undo, ShortcutCommand::Redo, ShortcutCommand::DeleteLine, ShortcutCommand::DuplicateLine, ShortcutCommand::MoveLineUp, ShortcutCommand::MoveLineDown, ShortcutCommand::SelectNextOccurrence, ShortcutCommand::Find, ShortcutCommand::FindReplace, ShortcutCommand::FindNext, ShortcutCommand::FindPrev, ShortcutCommand::SearchInFiles, ShortcutCommand::FormatBold, ShortcutCommand::FormatItalic, ShortcutCommand::FormatInlineCode, ShortcutCommand::FormatCodeBlock, ShortcutCommand::FormatLink, ShortcutCommand::FormatImage, ShortcutCommand::FormatBlockquote, ShortcutCommand::FormatBulletList, ShortcutCommand::FormatNumberedList, ShortcutCommand::FormatHeading1, ShortcutCommand::FormatHeading2, ShortcutCommand::FormatHeading3, ShortcutCommand::FormatHeading4, ShortcutCommand::FormatHeading5, ShortcutCommand::FormatHeading6, ShortcutCommand::FoldAll, ShortcutCommand::UnfoldAll, ShortcutCommand::ToggleFoldAtCursor, ShortcutCommand::OpenSettings, ShortcutCommand::OpenAbout, ShortcutCommand::ExportHtml, ShortcutCommand::InsertToc];
        assert(r@ == Self::spec_all());
        proof {
            assert forall|c: ShortcutCommand| r@.contains(c) by {
                Self::lemma_all_complete(c);
            }
            Self::lemma_all_complete(ShortcutCommand::Save);
        }
        r
    }

    /// Display name for the command.
    pub fn display_name(&self) -> (s: &'static str)
        ensures
            s@ == self.spec_display_name(),
    {
        match self {
            ShortcutCommand::Save => "Save",
            ShortcutCommand::SaveAs => "Save As",
            ShortcutCommand::Open => "Open File",
            ShortcutCommand::New => "New File",
            ShortcutCommand::NewTab => "New Tab",
            ShortcutCommand::CloseTab => "Close Tab",
            ShortcutCommand::NextTab => "Next Tab",
            ShortcutCommand::PrevTab => "Previous Tab",
            ShortcutCommand::GoToLine => "Go to Line",
            ShortcutCommand::QuickOpen => "Quick Open",
            ShortcutCommand::ToggleViewMode => "Toggle View Mode",
            ShortcutCommand::CycleTheme => "Cycle Theme",
            ShortcutCommand::ToggleZenMode => "Toggle Zen Mode",
            ShortcutCommand::ToggleFullscreen => "Toggle Fullscreen",
            ShortcutCommand::ToggleOutline => "Toggle Outline",
            ShortcutCommand::ToggleFileTree => "Toggle File Tree",
            ShortcutCommand::TogglePipeline => "Toggle Pipeline",
            ShortcutCommand::ToggleTerminal => "Toggle Terminal",
            ShortcutCommand::ToggleProductivityHub => "Toggle Productivity Hub",
            ShortcutCommand::Undo => "Undo",
            ShortcutCommand::Redo => "Redo",
            ShortcutCommand::DeleteLine => "Delete Line",
            ShortcutCommand::DuplicateLine => "Duplicate Line",
            ShortcutCommand::MoveLineUp => "Move Line Up",
            ShortcutCommand::MoveLineDown => "Move Line Down",
            ShortcutCommand::SelectNextOccurrence => "Select Next Occurrence",
            ShortcutCommand::Find => "Find",
            ShortcutCommand::FindReplace => "Find & Replace",
            ShortcutCommand::FindNext => "Find Next",
            ShortcutCommand::FindPrev => "Find Previous",
            ShortcutCommand::SearchInFiles => "Search in Files",
            ShortcutCommand::FormatBold => "Bold",
            ShortcutCommand::FormatItalic => "Italic",
            ShortcutCommand::FormatInlineCode => "Inline Code",
            ShortcutCommand::FormatCodeBlock => "Code Block",
            ShortcutCommand::FormatLink => "Link",
            ShortcutCommand::FormatImage => "Image",
            ShortcutCommand::FormatBlockquote => "Blockquote",
            ShortcutCommand::FormatBulletList => "Bullet List",
            ShortcutCommand::FormatNumberedList => "Numbered List",
            ShortcutCommand::FormatHeading1 => "Heading 1",
            ShortcutCommand::FormatHeading2 => "Heading 2",
            ShortcutCommand::FormatHeading3 => "Heading 3",
            ShortcutCommand::FormatHeading4 => "Heading 4",
            ShortcutCommand::FormatHeading5 => "Heading 5",
            ShortcutCommand::FormatHeading6 => "Heading 6",
            ShortcutCommand::FoldAll => "Fold All",
            ShortcutCommand::UnfoldAll => "Unfold All",
            ShortcutCommand::ToggleFoldAtCursor => "Toggle Fold",
            ShortcutCommand::OpenSettings => "Open Settings",
            ShortcutCommand::OpenAbout => "Open About",
            ShortcutCommand::ExportHtml => "Export HTML",
            ShortcutCommand::InsertToc => "Insert/Update TOC",
        }
    }

    /// Category used to group the command in the settings UI.
    pub fn category(&self) -> (s: &'static str)
        ensures
            s@ == self.spec_category(),
    {
        match self {
            ShortcutCommand::Save => "File",
            ShortcutCommand::SaveAs => "File",
            ShortcutCommand::Open => "File",
            ShortcutCommand::New => "File",
            ShortcutCommand::NewTab => "File",
            ShortcutCommand::CloseTab => "File",
            ShortcutCommand::NextTab => "Navigation",
            ShortcutCommand::PrevTab => "Navigation",
            ShortcutCommand::GoToLine => "Navigation",
            ShortcutCommand::QuickOpen => "Navigation",
            ShortcutCommand::ToggleViewMode => "View",
            ShortcutCommand::CycleTheme => "View",
            ShortcutCommand::ToggleZenMode => "View",
            ShortcutCommand::ToggleFullscreen => "View",
            ShortcutCommand::ToggleOutline => "View",
            ShortcutCommand::ToggleFileTree => "View",
            ShortcutCommand::TogglePipeline => "View",
            ShortcutCommand::ToggleTerminal => "View",
            ShortcutCommand::ToggleProductivityHub => "View",
            ShortcutCommand::Undo => "Edit",
            ShortcutCommand::Redo => "Edit",
            ShortcutCommand::DeleteLine => "Edit",
            ShortcutCommand::DuplicateLine => "Edit",
            ShortcutCommand::MoveLineUp => "Edit",
            ShortcutCommand::MoveLineDown => "Edit",
            ShortcutCommand::SelectNextOccurrence => "Edit",
            ShortcutCommand::Find => "Search",
            ShortcutCommand::FindReplace => "Search",
            ShortcutCommand::FindNext => "Search",
            ShortcutCommand::FindPrev => "Search",
            ShortcutCommand::SearchInFiles => "Search",
            ShortcutCommand::FormatBold => "Format",
            ShortcutCommand::FormatItalic => "Format",
            ShortcutCommand::FormatInlineCode => "Format",
            ShortcutCommand::FormatCodeBlock => "Format",
            ShortcutCommand::FormatLink => "Format",
            ShortcutCommand::FormatImage => "Format",
            ShortcutCommand::FormatBlockquote => "Format",
            ShortcutCommand::FormatBulletList => "Format",
            ShortcutCommand::FormatNumberedList => "Format",
            ShortcutCommand::FormatHeading1 => "Format",
            ShortcutCommand::FormatHeading2 => "Format",
            ShortcutCommand::FormatHeading3 => "Format",
            ShortcutCommand::FormatHeading4 => "Format",
            ShortcutCommand::FormatHeading5 => "Format",
            ShortcutCommand::FormatHeading6 => "Format",
            ShortcutCommand::FoldAll => "Folding",
            ShortcutCommand::UnfoldAll => "Folding",
            ShortcutCommand::ToggleFoldAtCursor => "Folding",
            ShortcutCommand::OpenSettings => "Other",
            ShortcutCommand::OpenAbout => "Other",
            ShortcutCommand::ExportHtml => "Other",
            ShortcutCommand::InsertToc => "Other",
        }
    }

    /// The default key binding for the command.
    pub fn default_binding(&self) -> (b: KeyBinding)
        ensures
            b == self.spec_default_binding(),
    {
        match self {
            ShortcutCommand::Save => KeyBinding::new(KeyModifiers::ctrl(), KeyCode::S),
            ShortcutCommand::SaveAs => KeyBinding::new(KeyModifiers::ctrl_shift(), KeyCode::S),
            ShortcutCommand::Open => KeyBinding::new(KeyModifiers::ctrl(), KeyCode::O),
            ShortcutCommand::New => KeyBinding::new(KeyModifiers::ctrl(), KeyCode::N),
            ShortcutCommand::NewTab => KeyBinding::new(KeyModifiers::ctrl(), KeyCode::T),
            ShortcutCommand::CloseTab => KeyBinding::new(KeyModifiers::ctrl(), KeyCode::W),
            ShortcutCommand::NextTab => KeyBinding::new(KeyModifiers::ctrl(), KeyCode::Tab),
            ShortcutCommand::PrevTab => KeyBinding::new(KeyModifiers::ctrl_shift(), KeyCode::Tab),
            ShortcutCommand::GoToLine => KeyBinding::new(KeyModifiers::ctrl(), KeyCode::G),
            ShortcutCommand::QuickOpen => KeyBinding::new(KeyModifiers::ctrl(), KeyCode::P),
            ShortcutCommand::ToggleViewMode => KeyBinding::new(KeyModifiers::ctrl(), KeyCode::E),
            ShortcutCommand::CycleTheme => KeyBinding::new(KeyModifiers::ctrl_shift(), KeyCode::T),
            ShortcutCommand::ToggleZenMode => KeyBinding::new(KeyModifiers::none(), KeyCode::F11),
            ShortcutCommand::ToggleFullscreen => KeyBinding::new(KeyModifiers::none(), KeyCode::F10),
            ShortcutCommand::ToggleOutline => KeyBinding::new(KeyModifiers::ctrl_shift(), KeyCode::O),
            ShortcutCommand::ToggleFileTree => KeyBinding::new(KeyModifiers::ctrl_shift(), KeyCode::E),
            ShortcutCommand::TogglePipeline => KeyBinding::new(KeyModifiers::ctrl_shift(), KeyCode::L),
            ShortcutCommand::ToggleTerminal => KeyBinding::new(KeyModifiers::ctrl(), KeyCode::Backtick),
            ShortcutCommand::ToggleProductivityHub => KeyBinding::new(KeyModifiers::ctrl_shift(), KeyCode::H),
            ShortcutCommand::Undo => KeyBinding::new(KeyModifiers::ctrl(), KeyCode::Z),
            ShortcutCommand::Redo => KeyBinding::new(KeyModifiers::ctrl(), KeyCode::Y),
            ShortcutCommand::DeleteLine => KeyBinding::new(KeyModifiers::ctrl(), KeyCode::D),
            ShortcutCommand::DuplicateLine => KeyBinding::new(KeyModifiers::ctrl_shift(), KeyCode::D),
            ShortcutCommand::MoveLineUp => KeyBinding::new(KeyModifiers::alt(), KeyCode::ArrowUp),
            ShortcutCommand::MoveLineDown => KeyBinding::new(KeyModifiers::alt(), KeyCode::ArrowDown),
            ShortcutCommand::SelectNextOccurrence => KeyBinding::new(KeyModifiers::ctrl_shift(), KeyCode::G),
            ShortcutCommand::Find => KeyBinding::new(KeyModifiers::ctrl(), KeyCode::F),
            ShortcutCommand::FindReplace => KeyBinding::new(KeyModifiers::ctrl(), KeyCode::H),
            ShortcutCommand::FindNext => KeyBinding::new(KeyModifiers::none(), KeyCode::F3),
            ShortcutCommand::FindPrev => KeyBinding::new(KeyModifiers::shift(), KeyCode::F3),
            ShortcutCommand::SearchInFiles => KeyBinding::new(KeyModifiers::ctrl_shift(), KeyCode::F),
            ShortcutCommand::FormatBold => KeyBinding::new(KeyModifiers::ctrl(), KeyCode::B),
            ShortcutCommand::FormatItalic => KeyBinding::new(KeyModifiers::ctrl(), KeyCode::I),
            ShortcutCommand::FormatInlineCode => KeyBinding::new(KeyModifiers::ctrl_shift(), KeyCode::Backtick),
            ShortcutCommand::FormatCodeBlock => KeyBinding::new(KeyModifiers::ctrl_shift(), KeyCode::C),
            ShortcutCommand::FormatLink => KeyBinding::new(KeyModifiers::ctrl(), KeyCode::K),
            ShortcutCommand::FormatImage => KeyBinding::new(KeyModifiers::ctrl_shift(), KeyCode::K),
            ShortcutCommand::FormatBlockquote => KeyBinding::new(KeyModifiers::ctrl(), KeyCode::Q),
            ShortcutCommand::FormatBulletList => KeyBinding::new(KeyModifiers::ctrl_shift(), KeyCode::B),
            ShortcutCommand::FormatNumberedList => KeyBinding::new(KeyModifiers::ctrl_shift(), KeyCode::N),
            ShortcutCommand::FormatHeading1 => KeyBinding::new(KeyModifiers::ctrl(), KeyCode::Num1),
            ShortcutCommand::FormatHeading2 => KeyBinding::new(KeyModifiers::ctrl(), KeyCode::Num2),
            ShortcutCommand::FormatHeading3 => KeyBinding::new(KeyModifiers::ctrl(), KeyCode::Num3),
            ShortcutCommand::FormatHeading4 => KeyBinding::new(KeyModifiers::ctrl(), KeyCode::Num4),
            ShortcutCommand::FormatHeading5 => KeyBinding::new(KeyModifiers::ctrl(), KeyCode::Num5),
            ShortcutCommand::FormatHeading6 => KeyBinding::new(KeyModifiers::ctrl(), KeyCode::Num6),
            ShortcutCommand::FoldAll => KeyBinding::new(KeyModifiers::ctrl_shift(), KeyCode::OpenBracket),
            ShortcutCommand::UnfoldAll => KeyBinding::new(KeyModifiers::ctrl_shift(), KeyCode::CloseBracket),
            ShortcutCommand::ToggleFoldAtCursor => KeyBinding::new(KeyModifiers::ctrl_shift(), KeyCode::Period),
            ShortcutCommand::OpenSettings => KeyBinding::new(KeyModifiers::ctrl(), KeyCode::Comma),
            ShortcutCommand::OpenAbout => KeyBinding::new(KeyModifiers::none(), KeyCode::F1),
            ShortcutCommand::ExportHtml => KeyBinding::new(KeyModifiers::ctrl_shift(), KeyCode::X),
            ShortcutCommand::InsertToc => KeyBinding::new(KeyModifiers::ctrl_shift(), KeyCode::U),
        }
    }
}

/// What tells the display names apart: the length, the first character
/// and the last two characters.
pub open spec fn name_fingerprint(s: Seq<char>) -> (nat, char, char, char) {
    (s.len(), s[0], s[s.len() - 1], s[s.len() - 2])
}

/// The command whose display name has a fingerprint, if any.
pub open spec fn command_of_fingerprint(f: (nat, char, char, char)) -> Option<ShortcutCommand> {
    if f == (4nat, 'S', 'e', 'v') {
        Some(ShortcutCommand::Save)
    } else if f == (7nat, 'S', 's', 'A') {
        Some(ShortcutCommand::SaveAs)
    } else if f == (9nat, 'O', 'e', 'l') {
        Some(ShortcutCommand::Open)
    } else if f == (8nat, 'N', 'e', 'l') {
        Some(ShortcutCommand::New)
    } else if f == (7nat, 'N', 'b', 'a') {
        Some(ShortcutCommand::NewTab)
    } else if f == (9nat, 'C', 'b', 'a') {
        Some(ShortcutCommand::CloseTab)
    } else if f == (8nat, 'N', 'b', 'a') {
        Some(ShortcutCommand::NextTab)
    } else if f == (12nat, 'P', 'b', 'a') {
        Some(ShortcutCommand::PrevTab)
    } else if f == (10nat, 'G', 'e', 'n') {
        Some(ShortcutCommand::GoToLine)
    } else if f == (10nat, 'Q', 'n', 'e') {
        Some(ShortcutCommand::QuickOpen)
    } else if f == (16nat, 'T', 'e', 'd') {
        Some(ShortcutCommand::ToggleViewMode)
    } else if f == (11nat, 'C', 'e', 'm') {
        Some(ShortcutCommand::CycleTheme)
    } else if f == (15nat, 'T', 'e', 'd') {
        Some(ShortcutCommand::ToggleZenMode)
    } else if f == (17nat, 'T', 'n', 'e') {
        Some(ShortcutCommand::ToggleFullscreen)
    } else if f == (14nat, 'T', 'e', 'n') {
        Some(ShortcutCommand::ToggleOutline)
    } else if f == (16nat, 'T', 'e', 'e') {
        Some(ShortcutCommand::ToggleFileTree)
    } else if f == (15nat, 'T', 'e', 'n') {
        Some(ShortcutCommand::TogglePipeline)
    } else if f == (15nat, 'T', 'l', 'a') {
        Some(ShortcutCommand::ToggleTerminal)
    } else if f == (23nat, 'T', 'b', 'u') {
        Some(ShortcutCommand::ToggleProductivityHub)
    } else if f == (4nat, 'U', 'o', 'd') {
        Some(ShortcutCommand::Undo)
    } else if f == (4nat, 'R', 'o', 'd') {
        Some(ShortcutCommand::Redo)
    } else if f == (11nat, 'D', 'e', 'n') {
        Some(ShortcutCommand::DeleteLine)
    } else if f == (14nat, 'D', 'e', 'n') {
        Some(ShortcutCommand::DuplicateLine)
    } else if f == (12nat, 'M', 'p', 'U') {
        Some(ShortcutCommand::MoveLineUp)
    } else if f == (14nat, 'M', 'n', 'w') {
        Some(ShortcutCommand::MoveLineDown)
    } else if f == (22nat, 'S', 'e', 'c') {
        Some(ShortcutCommand::SelectNextOccurrence)
    } else if f == (4nat, 'F', 'd', 'n') {
        Some(ShortcutCommand::Find)
    } else if f == (14nat, 'F', 'e', 'c') {
        Some(ShortcutCommand::FindReplace)
    } else if f == (9nat, 'F', 't', 'x') {
        Some(ShortcutCommand::FindNext)
    } else if f == (13nat, 'F', 's', 'u') {
        Some(ShortcutCommand::FindPrev)
    } else if f == (15nat, 'S', 's', 'e') {
        Some(ShortcutCommand::SearchInFiles)
    } else if f == (4nat, 'B', 'd', 'l') {
        Some(ShortcutCommand::FormatBold)
    } else if f == (6nat, 'I', 'c', 'i') {
        Some(ShortcutCommand::FormatItalic)
    } else if f == (11nat, 'I', 'e', 'd') {
        Some(ShortcutCommand::FormatInlineCode)
    } else if f == (10nat, 'C', 'k', 'c') {
        Some(ShortcutCommand::FormatCodeBlock)
    } else if f == (4nat, 'L', 'k', 'n') {
        Some(ShortcutCommand::FormatLink)
    } else if f == (5nat, 'I', 'e', 'g') {
        Some(ShortcutCommand::FormatImage)
    } else if f == (10nat, 'B', 'e', 't') {
        Some(ShortcutCommand::FormatBlockquote)
    } else if f == (11nat, 'B', 't', 's') {
        Some(ShortcutCommand::FormatBulletList)
    } else if f == (13nat, 'N', 't', 's') {
        Some(ShortcutCommand::FormatNumberedList)
    } else if f == (9nat, 'H', '1', ' ') {
        Some(ShortcutCommand::FormatHeading1)
    } else if f == (9nat, 'H', '2', ' ') {
        Some(ShortcutCommand::FormatHeading2)
    } else if f == (9nat, 'H', '3', ' ') {
        Some(ShortcutCommand::FormatHeading3)
    } else if f == (9nat, 'H', '4', ' ') {
        Some(ShortcutCommand::FormatHeading4)
    } else if f == (9nat, 'H', '5', ' ') {
        Some(ShortcutCommand::FormatHeading5)
    } else if f == (9nat, 'H', '6', ' ') {
        Some(ShortcutCommand::FormatHeading6)
    } else if f == (8nat, 'F', 'l', 'l') {
        Some(ShortcutCommand::FoldAll)
    } else if f == (10nat, 'U', 'l', 'l') {
        Some(ShortcutCommand::UnfoldAll)
    } else if f == (11nat, 'T', 'd', 'l') {
        Some(ShortcutCommand::ToggleFoldAtCursor)
    } else if f == (13nat, 'O', 's', 'g') {
        Some(ShortcutCommand::OpenSettings)
    } else if f == (10nat, 'O', 't', 'u') {
        Some(ShortcutCommand::OpenAbout)
    } else if f == (11nat, 'E', 'L', 'M') {
        Some(ShortcutCommand::ExportHtml)
    } else if f == (17nat, 'I', 'C', 'O') {
        Some(ShortcutCommand::InsertToc)
    } else {
        None
    }
}

/// Each command's display name is not empty and its fingerprint leads back
/// to the command.
proof fn lemma_name_fingerprint(c: ShortcutCommand)
    ensures
        c.spec_display_name().len() >= 2,
        command_of_fingerprint(name_fingerprint(c.spec_display_name())) == Some(c),
{
    match c {
        ShortcutCommand::Save => {
            reveal_strlit("Save");
        },
        ShortcutCommand::SaveAs => {
            reveal_strlit("Save As");
        },
        ShortcutCommand::Open => {
            reveal_strlit("Open File");
        },
        ShortcutCommand::New => {
            reveal_strlit("New File");
        },
        ShortcutCommand::NewTab => {
            reveal_strlit("New Tab");
        },
        ShortcutCommand::CloseTab => {
            reveal_strlit("Close Tab");
        },
        ShortcutCommand::NextTab => {
            reveal_strlit("Next Tab");
        },
        ShortcutCommand::PrevTab => {
            reveal_strlit("Previous Tab");
        },
        ShortcutCommand::GoToLine => {
            reveal_strlit("Go to Line");
        },
        ShortcutCommand::QuickOpen => {
            reveal_strlit("Quick Open");
        },
        ShortcutCommand::ToggleViewMode => {
            reveal_strlit("Toggle View Mode");
        },
        ShortcutCommand::CycleTheme => {
            reveal_strlit("Cycle Theme");
        },
        ShortcutCommand::ToggleZenMode => {
            reveal_strlit("Toggle Zen Mode");
        },
        ShortcutCommand::ToggleFullscreen => {
            reveal_strlit("Toggle Fullscreen");
        },
        ShortcutCommand::ToggleOutline => {
            reveal_strlit("Toggle Outline");
        },
        ShortcutCommand::ToggleFileTree => {
            reveal_strlit("Toggle File Tree");
        },
        ShortcutCommand::TogglePipeline => {
            reveal_strlit("Toggle Pipeline");
        },
        ShortcutCommand::ToggleTerminal => {
            reveal_strlit("Toggle Terminal");
        },
        ShortcutCommand::ToggleProductivityHub => {
            reveal_strlit("Toggle Productivity Hub");
        },
        ShortcutCommand::Undo => {
            reveal_strlit("Undo");
        },
        ShortcutCommand::Redo => {
            reveal_strlit("Redo");
        },
        ShortcutCommand::DeleteLine => {
            reveal_strlit("Delete Line");
        },
        ShortcutCommand::DuplicateLine => {
            reveal_strlit("Duplicate Line");
        },
        ShortcutCommand::MoveLineUp => {
            reveal_strlit("Move Line Up");
        },
        ShortcutCommand::MoveLineDown => {
            reveal_strlit("Move Line Down");
        },
        ShortcutCommand::SelectNextOccurrence => {
            reveal_strlit("Select Next Occurrence");
        },
        ShortcutCommand::Find => {
            reveal_strlit("Find");
        },
        ShortcutCommand::FindReplace => {
            reveal_strlit("Find & Replace");
        },
        ShortcutCommand::FindNext => {
            reveal_strlit("Find Next");
        },
        ShortcutCommand::FindPrev => {
            reveal_strlit("Find Previous");
        },
        ShortcutCommand::SearchInFiles => {
            reveal_strlit("Search in Files");
        },
        ShortcutCommand::FormatBold => {
            reveal_strlit("Bold");
        },
        ShortcutCommand::FormatItalic => {
            reveal_strlit("Italic");
        },
        ShortcutCommand::FormatInlineCode => {
            reveal_strlit("Inline Code");
        },
        ShortcutCommand::FormatCodeBlock => {
            reveal_strlit("Code Block");
        },
        ShortcutCommand::FormatLink => {
            reveal_strlit("Link");
        },
        ShortcutCommand::FormatImage => {
            reveal_strlit("Image");
        },
        ShortcutCommand::FormatBlockquote => {
            reveal_strlit("Blockquote");
        },
        ShortcutCommand::FormatBulletList => {
            reveal_strlit("Bullet List");
        },
        ShortcutCommand::FormatNumberedList => {
            reveal_strlit("Numbered List");
        },
        ShortcutCommand::FormatHeading1 => {
            reveal_strlit("Heading 1");
        },
        ShortcutCommand::FormatHeading2 => {
            reveal_strlit("Heading 2");
        },
        ShortcutCommand::FormatHeading3 => {
            reveal_strlit("Heading 3");
        },
        ShortcutCommand::FormatHeading4 => {
            reveal_strlit("Heading 4");
        },
        ShortcutCommand::FormatHeading5 => {
            reveal_strlit("Heading 5");
        },
        ShortcutCommand::FormatHeading6 => {
            reveal_strlit("Heading 6");
        },
        ShortcutCommand::FoldAll => {
            reveal_strlit("Fold All");
        },
        ShortcutCommand::UnfoldAll => {
            reveal_strlit("Unfold All");
        },
        ShortcutCommand::ToggleFoldAtCursor => {
            reveal_strlit("Toggle Fold");
        },
        ShortcutCommand::OpenSettings => {
            reveal_strlit("Open Settings");
        },
        ShortcutCommand::OpenAbout => {
            reveal_strlit("Open About");
        },
        ShortcutCommand::ExportHtml => {
            reveal_strlit("Export HTML");
        },
        ShortcutCommand::InsertToc => {
            reveal_strlit("Insert/Update TOC");
        },
    }
}

/// Command display names are never empty, and no two commands share one.
pub proof fn lemma_display_names_distinct(c1: ShortcutCommand, c2: ShortcutCommand)
    ensures
        c1.spec_display_name().len() > 0,
        c1 != c2 ==> c1.spec_display_name() != c2.spec_display_name(),
{
    lemma_name_fingerprint(c1);
    lemma_name_fingerprint(c2);
}

/// Index of a command's category in `CATEGORY_ORDER`.
pub open spec fn spec_category_index(c: ShortcutCommand) -> int {
    match c {
        ShortcutCommand::Save => 0,
        ShortcutCommand::SaveAs => 0,
        ShortcutCommand::Open => 0,
        ShortcutCommand::New => 0,
        ShortcutCommand::NewTab => 0,
        ShortcutCommand::CloseTab => 0,
        ShortcutCommand::NextTab => 1,
        ShortcutCommand::PrevTab => 1,
        ShortcutCommand::GoToLine => 1,
        ShortcutCommand::QuickOpen => 1,
        ShortcutCommand::ToggleViewMode => 2,
        ShortcutCommand::CycleTheme => 2,
        ShortcutCommand::ToggleZenMode => 2,
        ShortcutCommand::ToggleFullscreen => 2,
        ShortcutCommand::ToggleOutline => 2,
        ShortcutCommand::ToggleFileTree => 2,
        ShortcutCommand::TogglePipeline => 2,
        ShortcutCommand::ToggleTerminal => 2,
        ShortcutCommand::ToggleProductivityHub => 2,
        ShortcutCommand::Undo => 3,
        ShortcutCommand::Redo => 3,
        ShortcutCommand::DeleteLine => 3,
        ShortcutCommand::DuplicateLine => 3,
        ShortcutCommand::MoveLineUp => 3,
        ShortcutCommand::MoveLineDown => 3,
        ShortcutCommand::SelectNextOccurrence => 3,
        ShortcutCommand::Find => 4,
        ShortcutCommand::FindReplace => 4,
        ShortcutCommand::FindNext => 4,
        ShortcutCommand::FindPrev => 4,
        ShortcutCommand::SearchInFiles => 4,
        ShortcutCommand::FormatBold => 5,
        ShortcutCommand::FormatItalic => 5,
        ShortcutCommand::FormatInlineCode => 5,
        ShortcutCommand::FormatCodeBlock => 5,
        ShortcutCommand::FormatLink => 5,
        ShortcutCommand::FormatImage => 5,
        ShortcutCommand::FormatBlockquote => 5,
        ShortcutCommand::FormatBulletList => 5,
        ShortcutCommand::FormatNumberedList => 5,
        ShortcutCommand::FormatHeading1 => 5,
        ShortcutCommand::FormatHeading2 => 5,
        ShortcutCommand::FormatHeading3 => 5,
        ShortcutCommand::FormatHeading4 => 5,
        ShortcutCommand::FormatHeading5 => 5,
        ShortcutCommand::FormatHeading6 => 5,
        ShortcutCommand::FoldAll => 6,
        ShortcutCommand::UnfoldAll => 6,
        ShortcutCommand::ToggleFoldAtCursor => 6,
        ShortcutCommand::OpenSettings => 7,
        ShortcutCommand::OpenAbout => 7,
        ShortcutCommand::ExportHtml => 7,
        ShortcutCommand::InsertToc => 7,
    }
}

/// The category names, in the order the settings UI lists them.
pub open spec fn category_names() -> Seq<Seq<char>> {
    seq!["File"@, "Navigation"@, "View"@, "Edit"@, "Search"@, "Format"@, "Folding"@, "Other"@]
}

/// The category index of a command.
fn category_index(c: ShortcutCommand) -> (i: usize)
    ensures
        i == spec_category_index(c),
        i < 8,
        category_names()[i as int] == c.spec_category(),
{
    match c {
        ShortcutCommand::Save => 0,
        ShortcutCommand::SaveAs => 0,
        ShortcutCommand::Open => 0,
        ShortcutCommand::New => 0,
        ShortcutCommand::NewTab => 0,
        ShortcutCommand::CloseTab => 0,
        ShortcutCommand::NextTab => 1,
        ShortcutCommand::PrevTab => 1,
        ShortcutCommand::GoToLine => 1,
        ShortcutCommand::QuickOpen => 1,
        ShortcutCommand::ToggleViewMode => 2,
        ShortcutCommand::CycleTheme => 2,
        ShortcutCommand::ToggleZenMode => 2,
        ShortcutCommand::ToggleFullscreen => 2,
        ShortcutCommand::ToggleOutline => 2,
        ShortcutCommand::ToggleFileTree => 2,
        ShortcutCommand::TogglePipeline => 2,
        ShortcutCommand::ToggleTerminal => 2,
        ShortcutCommand::ToggleProductivityHub => 2,
        ShortcutCommand::Undo => 3,
        ShortcutCommand::Redo => 3,
        ShortcutCommand::DeleteLine => 3,
        ShortcutCommand::DuplicateLine => 3,
        ShortcutCommand::MoveLineUp => 3,
        ShortcutCommand::MoveLineDown => 3,
        ShortcutCommand::SelectNextOccurrence => 3,
        ShortcutCommand::Find => 4,
        ShortcutCommand::FindReplace => 4,
        ShortcutCommand::FindNext => 4,
        ShortcutCommand::FindPrev => 4,
        ShortcutCommand::SearchInFiles => 4,
        ShortcutCommand::FormatBold => 5,
        ShortcutCommand::FormatItalic => 5,
        ShortcutCommand::FormatInlineCode => 5,
        ShortcutCommand::FormatCodeBlock => 5,
        ShortcutCommand::FormatLink => 5,
        ShortcutCommand::FormatImage => 5,
        ShortcutCommand::FormatBlockquote => 5,
        ShortcutCommand::FormatBulletList => 5,
        ShortcutCommand::FormatNumberedList => 5,
        ShortcutCommand::FormatHeading1 => 5,
        ShortcutCommand::FormatHeading2 => 5,
        ShortcutCommand::FormatHeading3 => 5,
        ShortcutCommand::FormatHeading4 => 5,
        ShortcutCommand::FormatHeading5 => 5,
        ShortcutCommand::FormatHeading6 => 5,
        ShortcutCommand::FoldAll => 6,
        ShortcutCommand::UnfoldAll => 6,
        ShortcutCommand::ToggleFoldAtCursor => 6,
        ShortcutCommand::OpenSettings => 7,
        ShortcutCommand::OpenAbout => 7,
        ShortcutCommand::ExportHtml => 7,
        ShortcutCommand::InsertToc => 7,
    }
}

/// The custom binding of `c` among `entries`: the first entry for `c`.
pub open spec fn custom_binding(entries: Seq<(ShortcutCommand, KeyBinding)>, c: ShortcutCommand) -> Option<KeyBinding>
    decreases entries.len(),
{
    if entries.len() == 0 {
        None
    } else if entries[0].0 == c {
        Some(entries[0].1)
    } else {
        custom_binding(entries.drop_first(), c)
    }
}

/// The entries that are not for command `c`, in order.
pub open spec fn entries_without(entries: Seq<(ShortcutCommand, KeyBinding)>, c: ShortcutCommand) -> Seq<(ShortcutCommand, KeyBinding)>
    decreases entries.len(),
{
    if entries.len() == 0 {
        entries
    } else {
        let rest = entries_without(entries.drop_last(), c);
        if entries.last().0 == c {
            rest
        } else {
            rest.push(entries.last())
        }
    }
}

proof fn lemma_custom_binding_push(e: Seq<(ShortcutCommand, KeyBinding)>, x: (ShortcutCommand, KeyBinding), c: ShortcutCommand)
    ensures
        custom_binding(e.push(x), c) == (if custom_binding(e, c) is Some {
            custom_binding(e, c)
        } else if x.0 == c {
            Some(x.1)
        } else {
            None
        }),
    decreases e.len(),
{
    if e.len() == 0 {
        assert(e.push(x)[0] == x);
        assert(e.push(x).drop_first() =~= e);
        assert(custom_binding(e, c) is None);
    } else {
        assert(e.push(x)[0] == e[0]);
        assert(e.push(x).drop_first() =~= e.drop_first().push(x));
        lemma_custom_binding_push(e.drop_first(), x, c);
    }
}

proof fn lemma_custom_binding_without(e: Seq<(ShortcutCommand, KeyBinding)>, cmd: ShortcutCommand, c: ShortcutCommand)
    ensures
        custom_binding(entries_without(e, cmd), c) == (if c == cmd {
            None
        } else {
            custom_binding(e, c)
        }),
    decreases e.len(),
{
    if e.len() > 0 {
        let init = e.drop_last();
        lemma_custom_binding_without(init, cmd, c);
        assert(init.push(e.last()) =~= e);
        lemma_custom_binding_push(init, e.last(), c);
        if e.last().0 != cmd {
            lemma_custom_binding_push(entries_without(init, cmd), e.last(), c);
        }
    }
}

/// Keyboard shortcut configuration: custom bindings that override the
/// defaults of their commands.
#[derive(Debug, Clone)]
pub struct KeyboardShortcuts {
    bindings: Vec<(ShortcutCommand, KeyBinding)>,
}

/// A change made to the shortcuts by `set`, `reset` or `reset_all`; used to
/// state what a sequence of such calls leaves.
#[derive(Debug, Clone, Copy, PartialEq, Eq, Structural)]
pub enum ShortcutChange {
    /// `set(command, binding)`.
    Bind(ShortcutCommand, KeyBinding),
    /// `reset(command)`.
    Reset(ShortcutCommand),
    /// `reset_all()`.
    ResetAll,
}

/// The custom binding of `c` after one change, from `prev` before it.
pub open spec fn custom_step(prev: Option<KeyBinding>, change: ShortcutChange, c: ShortcutCommand) -> Option<KeyBinding> {
    match change {
        ShortcutChange::Bind(cmd, b) => if cmd == c {
            Some(b)
        } else {
            prev
        },
        ShortcutChange::Reset(cmd) => if cmd == c {
            None
        } else {
            prev
        },
        ShortcutChange::ResetAll => None,
    }
}

/// The custom binding of `c` after a sequence of changes made to shortcuts
/// with no custom binding (as `default()` and `new()` give).
pub open spec fn custom_after(changes: Seq<ShortcutChange>, c: ShortcutCommand) -> Option<KeyBinding>
    decreases changes.len(),
{
    if changes.len() == 0 {
        None
    } else {
        custom_step(custom_after(changes.drop_last(), c), changes.last(), c)
    }
}

/// Whether a change resets `c` (by `reset(c)` or `reset_all()`).
pub open spec fn resets(change: ShortcutChange, c: ShortcutCommand) -> bool {
    change == ShortcutChange::ResetAll || change == ShortcutChange::Reset(c)
}

/// Whether a change sets a binding for `c`.
pub open spec fn sets(change: ShortcutChange, c: ShortcutCommand) -> bool {
    exists|b: KeyBinding| change == ShortcutChange::Bind(c, b)
}

/// Some `set(c, _)` comes after the last `reset(c)` and the last
/// `reset_all()`.
pub open spec fn set_since_reset(changes: Seq<ShortcutChange>, c: ShortcutCommand) -> bool {
    exists|i: int|
        0 <= i < changes.len() && #[trigger] sets(changes[i], c) && forall|j: int|
            i < j < changes.len() ==> !#[trigger] resets(changes[j], c)
}

/// Starting from no custom bindings, a command is custom exactly when it
/// was set after its last reset and after the last reset of all commands.
pub proof fn lemma_custom_after(changes: Seq<ShortcutChange>, c: ShortcutCommand)
    ensures
        (custom_after(changes, c) is Some) <==> set_since_reset(changes, c),
    decreases changes.len(),
{
    if changes.len() > 0 {
        let d = changes.drop_last();
        let x = changes.last();
        let n = changes.len() as int;
        lemma_custom_after(d, c);
        if sets(x, c) {
            let b = choose|b: KeyBinding| x == ShortcutChange::Bind(c, b);
            assert(custom_after(changes, c) == Some(b));
            assert(sets(changes[n - 1], c));
        } else if resets(x, c) {
            assert(custom_after(changes, c) is None);
            if set_since_reset(changes, c) {
                let i = choose|i: int|
                    0 <= i < changes.len() && #[trigger] sets(changes[i], c) && forall|j: int|
                        i < j < changes.len() ==> !#[trigger] resets(changes[j], c);
                if i == n - 1 {
                    let b = choose|b: KeyBinding| changes[i] == ShortcutChange::Bind(c, b);
                } else {
                    assert(!resets(changes[n - 1], c));
                }
            }
        } else {
            assert(custom_after(changes, c) == custom_after(d, c)) by {
                match x {
                    ShortcutChange::Bind(cmd, b) => {
                        if cmd == c {
                            assert(sets(x, c));
                        }
                    },
                    ShortcutChange::Reset(cmd) => {},
                    ShortcutChange::ResetAll => {},
                }
            }
            if set_since_reset(d, c) {
                let i = choose|i: int|
                    0 <= i < d.len() && #[trigger] sets(d[i], c) && forall|j: int|
                        i < j < d.len() ==> !#[trigger] resets(d[j], c);
                assert(d[i] == changes[i]);
                assert forall|j: int| i < j < changes.len() implies !#[trigger] resets(changes[j], c) by {
                    if j < n - 1 {
                        assert(d[j] == changes[j]);
                    }
                }
                assert(sets(changes[i], c));
            }
            if set_since_reset(changes, c) {
                let i = choose|i: int|
                    0 <= i < changes.len() && #[trigger] sets(changes[i], c) && forall|j: int|
                        i < j < changes.len() ==> !#[trigger] resets(changes[j], c);
                assert(i < n - 1);
                assert(d[i] == changes[i]);
                assert(sets(d[i], c));
                assert forall|j: int| i < j < d.len() implies !#[trigger] resets(d[j], c) by {
                    assert(d[j] == changes[j]);
                    assert(!resets(changes[j], c));
                }
            }
        }
    }
}

impl KeyboardShortcuts {
    /// The custom binding of a command, if it has one.
    pub closed spec fn custom(self, c: ShortcutCommand) -> Option<KeyBinding> {
        custom_binding(self.bindings@, c)
    }

    /// The binding in effect for a command: its custom binding, else its default.
    pub open spec fn effective(self, c: ShortcutCommand) -> KeyBinding {
        match self.custom(c) {
            Some(b) => b,
            None => c.spec_default_binding(),
        }
    }

    /// Whether command `spec_all()[i]` is bound to `b` and is not excluded.
    pub open spec fn conflicts_at(self, b: KeyBinding, exclude: Option<ShortcutCommand>, i: int) -> bool {
        let c = ShortcutCommand::spec_all()[i];
        exclude != Some(c) && self.effective(c) == b
    }

    /// Shortcuts with no custom binding.
    pub fn new() -> (s: Self)
        ensures
            forall|c: ShortcutCommand| s.custom(c) is None,
    {
        KeyboardShortcuts { bindings: Vec::new() }
    }

    /// The custom bindings, one per command that has one.
    pub fn custom_bindings(&self) -> (v: Vec<(ShortcutCommand, KeyBinding)>)
        ensures
            forall|c: ShortcutCommand| self.custom(c) == custom_binding(v@, c),
    {
        let mut v: Vec<(ShortcutCommand, KeyBinding)> = Vec::new();
        let mut i: usize = 0;
        while i < self.bindings.len()
            invariant
                i <= self.bindings@.len(),
                v@ == self.bindings@.take(i as int),
            decreases self.bindings@.len() - i,
        {
            v.push(self.bindings[i]);
            i = i + 1;
            proof {
                assert(v@ =~= self.bindings@.take(i as int));
            }
        }
        proof {
            assert(self.bindings@.take(i as int) =~= self.bindings@);
        }
        v
    }

    /// The binding in effect for a command (custom, else default).
    pub fn get(&self, command: ShortcutCommand) -> (b: KeyBinding)
        ensures
            b == self.effective(command),
    {
        let mut i: usize = 0;
        proof {
            assert(self.bindings@.skip(0) =~= self.bindings@);
        }
        while i < self.bindings.len()
            invariant
                i <= self.bindings@.len(),
                custom_binding(self.bindings@, command) == custom_binding(self.bindings@.skip(i as int), command),
            decreases self.bindings@.len() - i,
        {
            proof {
                assert(self.bindings@.skip(i as int).drop_first() =~= self.bindings@.skip(i + 1));
            }
            let entry = self.bindings[i];
            if entry.0 == command {
                return entry.1;
            }
            i = i + 1;
        }
        command.default_binding()
    }

    /// Removes the custom binding of `command` from the entries.
    fn remove_entries(&mut self, command: ShortcutCommand)
        ensures
            final(self).bindings@ == entries_without(old(self).bindings@, command),
    {
        let mut kept: Vec<(ShortcutCommand, KeyBinding)> = Vec::new();
        let mut i: usize = 0;
        let ghost e = self.bindings@;
        proof {
            assert(e.take(0) =~= Seq::<(ShortcutCommand, KeyBinding)>::empty());
        }
        while i < self.bindings.len()
            invariant
                i <= e.len(),
                e == self.bindings@,
                kept@ == entries_without(e.take(i as int), command),
            decreases e.len() - i,
        {
            proof {
                assert(e.take(i + 1).drop_last() =~= e.take(i as int));
            }
            let entry = self.bindings[i];
            if entry.0 != command {
                kept.push(entry);
            }
            i = i + 1;
        }
        proof {
            assert(e.take(e.len() as int) =~= e);
        }
        self.bindings = kept;
    }

    /// Gives `command` the custom binding `binding`.
    pub fn set(&mut self, command: ShortcutCommand, binding: KeyBinding)
        ensures
            forall|c: ShortcutCommand| #[trigger] final(self).custom(c) == (if c == command {
                Some(binding)
            } else {
                old(self).custom(c)
            }),
            final(self).effective(command) == binding,
            forall|c: ShortcutCommand| c != command ==> #[trigger] final(self).effective(c) == old(self).effective(c),
            forall|c: ShortcutCommand| #[trigger] final(self).custom(c) == custom_step(
                old(self).custom(c),
                ShortcutChange::Bind(command, binding),
                c,
            ),
    {
        let ghost old_e = self.bindings@;
        self.remove_entries(command);
        let ghost mid = self.bindings@;
        self.bindings.push((command, binding));
        proof {
            assert forall|c: ShortcutCommand| #[trigger] self.custom(c) == (if c == command {
                Some(binding)
            } else {
                custom_binding(old_e, c)
            }) by {
                lemma_custom_binding_without(old_e, command, c);
                lemma_custom_binding_push(mid, (command, binding), c);
            }
        }
    }

    /// Removes the custom binding of `command`, so its default applies again.
    pub fn reset(&mut self, command: ShortcutCommand)
        ensures
            forall|c: ShortcutCommand| #[trigger] final(self).custom(c) == (if c == command {
                None
            } else {
                old(self).custom(c)
            }),
            final(self).effective(command) == command.spec_default_binding(),
            forall|c: ShortcutCommand| c != command ==> #[trigger] final(self).effective(c) == old(self).effective(c),
            forall|c: ShortcutCommand| #[trigger] final(self).custom(c) == custom_step(
                old(self).custom(c),
                ShortcutChange::Reset(command),
                c,
            ),
    {
        let ghost old_e = self.bindings@;
        self.remove_entries(command);
        proof {
            assert forall|c: ShortcutCommand| #[trigger] self.custom(c) == (if c == command {
                None
            } else {
                custom_binding(old_e, c)
            }) by {
                lemma_custom_binding_without(old_e, command, c);
            }
        }
    }

    /// Removes every custom binding.
    pub fn reset_all(&mut self)
        ensures
            forall|c: ShortcutCommand| final(self).custom(c) is None,
            forall|c: ShortcutCommand| #[trigger] final(self).effective(c) == c.spec_default_binding(),
            forall|c: ShortcutCommand| #[trigger] final(self).custom(c) == custom_step(
                old(self).custom(c),
                ShortcutChange::ResetAll,
                c,
            ),
    {
        self.bindings = Vec::new();
    }

    /// Whether a command has a custom binding.
    pub fn is_custom(&self, command: ShortcutCommand) -> (r: bool)
        ensures
            r == (self.custom(command) is Some),
    {
        let mut i: usize = 0;
        proof {
            assert(self.bindings@.skip(0) =~= self.bindings@);
        }
        while i < self.bindings.len()
            invariant
                i <= self.bindings@.len(),
                custom_binding(self.bindings@, command) == custom_binding(self.bindings@.skip(i as int), command),
            decreases self.bindings@.len() - i,
        {
            proof {
                assert(self.bindings@.skip(i as int).drop_first() =~= self.bindings@.skip(i + 1));
            }
            if self.bindings[i].0 == command {
                return true;
            }
            i = i + 1;
        }
        false
    }

    /// The first command (in `ShortcutCommand::all` order), other than
    /// `exclude`, whose binding in effect is `binding`.
    pub fn find_conflict(&self, binding: &KeyBinding, exclude: Option<ShortcutCommand>) -> (r: Option<ShortcutCommand>)
        ensures
            r is None ==> forall|i: int| 0 <= i < ShortcutCommand::spec_all().len() ==> !#[trigger] self.conflicts_at(*binding, exclude, i),
            r is Some ==> exists|i: int| 0 <= i < ShortcutCommand::spec_all().len() && #[trigger] self.conflicts_at(*binding, exclude, i)
                && ShortcutCommand::spec_all()[i] == r->0
                && forall|j: int| 0 <= j < i ==> !#[trigger] self.conflicts_at(*binding, exclude, j),
            r is Some ==> exclude != Some(r->0) && self.effective(r->0) == *binding,
            r is None ==> forall|c: ShortcutCommand| exclude != Some(c) ==> #[trigger] self.effective(c) != *binding,
    {
        let all = ShortcutCommand::all();
        let mut i: usize = 0;
        while i < all.len()
            invariant
                i <= all@.len(),
                all@ == ShortcutCommand::spec_all(),
                forall|j: int| 0 <= j < i ==> !#[trigger] self.conflicts_at(*binding, exclude, j),
            decreases all@.len() - i,
        {
            let cmd = all[i];
            let excluded = match exclude {
                Some(e) => e == cmd,
                None => false,
            };
            if !excluded {
                if self.get(cmd) == *binding {
                    assert(self.conflicts_at(*binding, exclude, i as int));
                    return Some(cmd);
                }
            }
            i = i + 1;
        }
        proof {
            assert forall|c: ShortcutCommand| exclude != Some(c) implies #[trigger] self.effective(c) != *binding by {
                ShortcutCommand::lemma_all_complete(c);
                assert(!self.conflicts_at(*binding, exclude, c.spec_index()));
            }
        }
        None
    }

    /// The commands of each category, in `ShortcutCommand::all` order, for
    /// the categories in `category_names()` order that hold any command.
    pub fn commands_by_category() -> (r: Vec<(&'static str, Vec<ShortcutCommand>)>)
        ensures
            r@.len() == 8,
            forall|k: int| 0 <= k < 8 ==> (#[trigger] r@[k]).0@ == category_names()[k]
                && r@[k].1@ == ShortcutCommand::spec_all().filter(|c: ShortcutCommand| spec_category_index(c) == k),
    {
        let names: [&'static str; 8] = ["File", "Navigation", "View", "Edit", "Search", "Format", "Folding", "Other"];
        let all = ShortcutCommand::all();
        let mut r: Vec<(&'static str, Vec<ShortcutCommand>)> = Vec::new();
        let mut k: usize = 0;
        while k < 8
            invariant
                k <= 8,
                r@.len() == k,
                all@ == ShortcutCommand::spec_all(),
                names@ == seq!["File", "Navigation", "View", "Edit", "Search", "Format", "Folding", "Other"],
                forall|m: int| 0 <= m < k ==> (#[trigger] r@[m]).0@ == category_names()[m]
                    && r@[m].1@ == ShortcutCommand::spec_all().filter(|c: ShortcutCommand| spec_category_index(c) == m),
            decreases 8 - k,
        {
            let ghost kk = k as int;
            let ghost pred = |c: ShortcutCommand| spec_category_index(c) == kk;
            let mut cmds: Vec<ShortcutCommand> = Vec::new();
            let mut i: usize = 0;
            proof {
                assert(all@.take(0) =~= Seq::<ShortcutCommand>::empty());
                reveal_with_fuel(Seq::filter, 1);
            }
            while i < all.len()
                invariant
                    i <= all@.len(),
                    kk == k,
                    k < 8,
                    pred == (|c: ShortcutCommand| spec_category_index(c) == kk),
                    cmds@ == all@.take(i as int).filter(pred),
                decreases all@.len() - i,
            {
                proof {
                    reveal_with_fuel(Seq::filter, 1);
                    assert(all@.take(i + 1).drop_last() =~= all@.take(i as int));
                }
                let c = all[i];
                proof {
                    assert(all@.take(i + 1).last() == c);
                    assert(all@.take(i + 1).filter(pred) == if pred(c) {
                        all@.take(i as int).filter(pred).push(c)
                    } else {
                        all@.take(i as int).filter(pred)
                    });
                }
                let ci = category_index(c);
                if ci == k {
                    cmds.push(c);
                }
                proof {
                    assert(pred(c) == (ci == k));
                    assert(cmds@ == all@.take(i + 1).filter(pred));
                }
                i = i + 1;
            }
            proof {
                assert(all@.take(all@.len() as int) =~= all@);
                reveal_strlit("File");
                reveal_strlit("Navigation");
                reveal_strlit("View");
                reveal_strlit("Edit");
                reveal_strlit("Search");
                reveal_strlit("Format");
                reveal_strlit("Folding");
                reveal_strlit("Other");
            }
            r.push((names[k], cmds));
            k = k + 1;
        }
        r
    }
}

impl Default for KeyboardShortcuts {
    /// Shortcuts with no custom binding.
    fn default() -> (s: Self)
        ensures
            forall|c: ShortcutCommand| s.custom(c) is None,
    {
        Self::new()
    }
}


/// The primary language tag of a locale: the characters before the first
/// '-' or '_'.
pub open spec fn locale_primary(s: Seq<char>) -> Seq<char>
    decreases s.len(),
{
    if s.len() == 0 || s[0] == '-' || s[0] == '_' {
        Seq::<char>::empty()
    } else {
        seq![s[0]] + locale_primary(s.drop_first())
    }
}

/// Whether the primary tag of `s` is two letters, the first `a` or its
/// uppercase form `ua`, the second `b` or its uppercase form `ub`.
pub open spec fn primary_is(s: Seq<char>, a: char, ua: char, b: char, ub: char) -> bool {
    let p = locale_primary(s);
    p.len() == 2 && (p[0] == a || p[0] == ua) && (p[1] == b || p[1] == ub)
}

/// UI languages.
#[derive(Debug, Clone, Copy, PartialEq, Eq, Structural, Hash)]
pub enum Language {
    /// English (default).
    English,
    /// Simplified Chinese.
    ChineseSimplified,
    /// German.
    German,
    /// Japanese.
    Japanese,
}

impl Language {
    /// The language a locale code names, if available: matched on the
    /// primary tag ("en", "zh", "de", "ja"), ignoring case.
    pub open spec fn spec_from_locale(s: Seq<char>) -> Option<Language> {
        if primary_is(s, 'e', 'E', 'n', 'N') {
            Some(Language::English)
        } else if primary_is(s, 'z', 'Z', 'h', 'H') {
            Some(Language::ChineseSimplified)
        } else if primary_is(s, 'd', 'D', 'e', 'E') {
            Some(Language::German)
        } else if primary_is(s, 'j', 'J', 'a', 'A') {
            Some(Language::Japanese)
        } else {
            None
        }
    }

    /// The locale code of a language.
    pub open spec fn spec_locale_code(self) -> Seq<char> {
        match self {
            Language::English => "en"@,
            Language::ChineseSimplified => "zh_Hans"@,
            Language::German => "de"@,
            Language::Japanese => "ja"@,
        }
    }

    /// The locale code used by the translation files.
    pub fn locale_code(&self) -> (s: &'static str)
        ensures
            s@ == self.spec_locale_code(),
    {
        match self {
            Language::English => "en",
            Language::ChineseSimplified => "zh_Hans",
            Language::German => "de",
            Language::Japanese => "ja",
        }
    }

    /// The language's own name for itself.
    pub fn native_name(&self) -> (s: &'static str)
        ensures
            s@ == match self {
                Language::English => "English"@,
                Language::ChineseSimplified => "\u{7b80}\u{4f53}\u{4e2d}\u{6587}"@,
                Language::German => "Deutsch"@,
                Language::Japanese => "\u{65e5}\u{672c}\u{8a9e}"@,
            },
    {
        match self {
            Language::English => "English",
            Language::ChineseSimplified => "\u{7b80}\u{4f53}\u{4e2d}\u{6587}",
            Language::German => "Deutsch",
            Language::Japanese => "\u{65e5}\u{672c}\u{8a9e}",
        }
    }

    /// A Latin-only name for the language selector.
    pub fn selector_display_name(&self) -> (s: &'static str)
        ensures
            s@ == match self {
                Language::English => "English"@,
                Language::ChineseSimplified => "Chinese (Simplified)"@,
                Language::German => "German"@,
                Language::Japanese => "Japanese"@,
            },
    {
        match self {
            Language::English => "English",
            Language::ChineseSimplified => "Chinese (Simplified)",
            Language::German => "German",
            Language::Japanese => "Japanese",
        }
    }

    /// The CJK font the language's UI text needs, if any.
    pub fn required_cjk_font(&self) -> (r: Option<CjkFontPreference>)
        ensures
            r == match self {
                Language::ChineseSimplified => Some(CjkFontPreference::SimplifiedChinese),
                Language::Japanese => Some(CjkFontPreference::Japanese),
                _ => None,
            },
    {
        match self {
            Language::ChineseSimplified => Some(CjkFontPreference::SimplifiedChinese),
            Language::Japanese => Some(CjkFontPreference::Japanese),
            _ => None,
        }
    }

    /// All languages.
    pub fn all() -> (r: &'static [Language])
        ensures
            r@ == seq![Language::English, Language::ChineseSimplified, Language::German, Language::Japanese],
    {
        let r: &'static [Language] = &[Language::English, Language::ChineseSimplified, Language::German, Language::Japanese];
        assert(r@ == seq![Language::English, Language::ChineseSimplified, Language::German, Language::Japanese]);
        r
    }

    /// Matches a locale code ("en-US", "zh_CN", "DE", ...) to a language by
    /// its primary tag, ignoring case.
    pub fn from_locale_code(locale: &str) -> (r: Option<Language>)
        ensures
            r == Self::spec_from_locale(locale@),
    {
        let v = chars_vec(locale);
        let mut end: usize = 0;
        proof {
            assert(v@.skip(0) =~= v@);
            assert(v@.take(0) + locale_primary(v@.skip(0)) =~= locale_primary(v@));
        }
        while end < v.len() && v[end] != '-' && v[end] != '_'
            invariant
                end <= v@.len(),
                locale_primary(v@) == v@.take(end as int) + locale_primary(v@.skip(end as int)),
            decreases v@.len() - end,
        {
            proof {
                assert(v@.skip(end as int).drop_first() =~= v@.skip(end + 1));
                assert(v@.take(end as int) + seq![v@[end as int]] =~= v@.take(end + 1));
                assert(v@.take(end as int) + locale_primary(v@.skip(end as int)) =~= v@.take(end + 1)
                    + locale_primary(v@.skip(end + 1)));
            }
            end = end + 1;
        }
        proof {
            if end == v@.len() {
                assert(v@.skip(end as int).len() == 0);
            }
            assert(locale_primary(v@) =~= v@.take(end as int));
        }
        if end != 2 {
            return None;
        }
        let a = v[0];
        let b = v[1];
        if (a == 'e' || a == 'E') && (b == 'n' || b == 'N') {
            Some(Language::English)
        } else if (a == 'z' || a == 'Z') && (b == 'h' || b == 'H') {
            Some(Language::ChineseSimplified)
        } else if (a == 'd' || a == 'D') && (b == 'e' || b == 'E') {
            Some(Language::German)
        } else if (a == 'j' || a == 'J') && (b == 'a' || b == 'A') {
            Some(Language::Japanese)
        } else {
            None
        }
    }
}

/// Every language's own locale code is matched back to that language.
pub proof fn lemma_locale_code_round_trip(l: Language)
    ensures
        Language::spec_from_locale(l.spec_locale_code()) == Some(l),
{
    reveal_strlit("en");
    reveal_strlit("zh_Hans");
    reveal_strlit("de");
    reveal_strlit("ja");
    let code = l.spec_locale_code();
    assert(locale_primary(code.drop_first().drop_first()) =~= locale_primary(code.skip(2))) by {
        assert(code.drop_first().drop_first() =~= code.skip(2));
    }
    reveal_with_fuel(locale_primary, 3);
    match l {
        Language::ChineseSimplified => {
            assert(code[2] == '_');
            assert(locale_primary(code) =~= seq!['z', 'h']);
        },
        Language::English => {
            assert(locale_primary(code) =~= seq!['e', 'n']);
        },
        Language::German => {
            assert(locale_primary(code) =~= seq!['d', 'e']);
        },
        Language::Japanese => {
            assert(locale_primary(code) =~= seq!['j', 'a']);
        },
    }
}

/// `sys_locale::get_locale`: the system's most preferred locale as a BCP 47
/// tag, if one can be read. It depends on the machine and its environment,
/// so nothing is stated of the result.
#[verifier::external_body]
fn system_locale() -> (r: Option<String>) {
    sys_locale::get_locale()
}

impl Language {
    /// The language for a detected locale: the one its code names, English
    /// when there is no locale or it names no available language.
    pub fn from_detected_locale(locale: Option<String>) -> (r: Language)
        ensures
            r == match locale {
                Some(l) => match Self::spec_from_locale(l@) {
                    Some(lang) => lang,
                    None => Language::English,
                },
                None => Language::English,
            },
    {
        match locale {
            Some(l) => match Self::from_locale_code(l.as_str()) {
                Some(lang) => lang,
                None => Language::English,
            },
            None => Language::English,
        }
    }

    /// The language of the system locale, falling back to English when the
    /// locale cannot be read or names no available language.
    pub fn from_system_locale() -> (r: Language) {
        Self::from_detected_locale(system_locale())
    }
}

impl Default for Language {
    /// English.
    fn default() -> (l: Self)
        ensures
            l == Language::English,
    {
        Language::English
    }
}

/// The text of a decimal digit.
pub open spec fn digit_text(d: int) -> Seq<char> {
    if d == 0 { "0"@ } else if d == 1 { "1"@ } else if d == 2 { "2"@ } else if d == 3 { "3"@ }
    else if d == 4 { "4"@ } else if d == 5 { "5"@ } else if d == 6 { "6"@ } else if d == 7 { "7"@ }
    else if d == 8 { "8"@ } else { "9"@ }
}

/// Decimal text of a number below 100, without leading zeros.
pub open spec fn small_decimal(n: int) -> Seq<char> {
    if n >= 10 { digit_text(n / 10) + digit_text(n % 10) } else { digit_text(n) }
}

/// The shortest decimal text of `tenths / 10` ("1.5", "2", "0.3", "25.5").
pub open spec fn tenths_text(tenths: int) -> Seq<char> {
    if tenths % 10 == 0 {
        small_decimal(tenths / 10)
    } else {
        small_decimal(tenths / 10) + "."@ + digit_text(tenths % 10)
    }
}

/// The text of a decimal digit.
fn digit_str(d: u8) -> (s: &'static str)
    requires
        d < 10,
    ensures
        s@ == digit_text(d as int),
{
    match d {
        0 => "0",
        1 => "1",
        2 => "2",
        3 => "3",
        4 => "4",
        5 => "5",
        6 => "6",
        7 => "7",
        8 => "8",
        _ => "9",
    }
}

/// Paragraph indentation for CJK typography.
#[derive(Debug, Clone, Copy, PartialEq, Eq, Structural)]
pub enum ParagraphIndent {
    /// No indentation (default).
    Off,
    /// Chinese convention: 2em.
    Chinese,
    /// Japanese convention: 1em.
    Japanese,
    /// Custom indentation in tenths of an em (15 = 1.5em).
    Custom(u8),
}

impl ParagraphIndent {
    /// The indentation in tenths of an em, `None` when off.
    pub open spec fn spec_tenths(self) -> Option<int> {
        match self {
            ParagraphIndent::Off => None,
            ParagraphIndent::Chinese => Some(20),
            ParagraphIndent::Japanese => Some(10),
            ParagraphIndent::Custom(t) => Some(t as int),
        }
    }

    /// Display name for the UI.
    pub fn display_name(&self) -> (s: &'static str)
        ensures
            s@ == match self {
                ParagraphIndent::Off => "Off"@,
                ParagraphIndent::Chinese => "Chinese (2em)"@,
                ParagraphIndent::Japanese => "Japanese (1em)"@,
                ParagraphIndent::Custom(_) => "Custom"@,
            },
    {
        match self {
            ParagraphIndent::Off => "Off",
            ParagraphIndent::Chinese => "Chinese (2em)",
            ParagraphIndent::Japanese => "Japanese (1em)",
            ParagraphIndent::Custom(_) => "Custom",
        }
    }

    /// Description of the setting.
    pub fn description(&self) -> (s: &'static str)
        ensures
            s@ == match self {
                ParagraphIndent::Off => "No paragraph indentation"@,
                ParagraphIndent::Chinese => "Two full-width characters indent"@,
                ParagraphIndent::Japanese => "One full-width character indent"@,
                ParagraphIndent::Custom(_) => "Custom em value"@,
            },
    {
        match self {
            ParagraphIndent::Off => "No paragraph indentation",
            ParagraphIndent::Chinese => "Two full-width characters indent",
            ParagraphIndent::Japanese => "One full-width character indent",
            ParagraphIndent::Custom(_) => "Custom em value",
        }
    }

    /// The preset options (without `Custom`).
    pub fn presets() -> (r: &'static [ParagraphIndent])
        ensures
            r@ == seq![ParagraphIndent::Off, ParagraphIndent::Chinese, ParagraphIndent::Japanese],
    {
        let r: &'static [ParagraphIndent] = &[ParagraphIndent::Off, ParagraphIndent::Chinese, ParagraphIndent::Japanese];
        assert(r@ == seq![ParagraphIndent::Off, ParagraphIndent::Chinese, ParagraphIndent::Japanese]);
        r
    }

    /// Whether this is a custom value.
    pub fn is_custom(&self) -> (r: bool)
        ensures
            r == (self is Custom),
    {
        match self {
            ParagraphIndent::Custom(_) => true,
            _ => false,
        }
    }

    /// The custom value in tenths of an em, if any.
    pub fn custom_value(&self) -> (r: Option<u8>)
        ensures
            r == match self {
                ParagraphIndent::Custom(t) => Some(*t),
                _ => None,
            },
    {
        match self {
            ParagraphIndent::Custom(t) => Some(*t),
            _ => None,
        }
    }

    /// The CSS `text-indent` value ("2em", "1.5em"), `None` when off.
    pub fn to_css(&self) -> (r: Option<String>)
        ensures
            r is None <==> self.spec_tenths() is None,
            r is Some ==> r->0@ == tenths_text(self.spec_tenths()->0) + "em"@,
    {
        let tenths: u8 = match self {
            ParagraphIndent::Off => {
                return None;
            },
            ParagraphIndent::Chinese => 20,
            ParagraphIndent::Japanese => 10,
            ParagraphIndent::Custom(t) => *t,
        };
        let whole = tenths / 10;
        let frac = tenths % 10;
        let mut s = String::new();
        if whole >= 10 {
            s.append(digit_str(whole / 10));
            s.append(digit_str(whole % 10));
        } else {
            s.append(digit_str(whole));
        }
        if frac != 0 {
            s.append(".");
            s.append(digit_str(frac));
        }
        s.append("em");
        Some(s)
    }
}

impl Default for ParagraphIndent {
    /// No indentation.
    fn default() -> (p: Self)
        ensures
            p == ParagraphIndent::Off,
    {
        ParagraphIndent::Off
    }
}

/// Maximum line width of the editor.
#[derive(Debug, Clone, Copy, PartialEq, Eq, Structural)]
pub enum MaxLineWidth {
    /// No limit (default).
    Off,
    /// 80 characters.
    Col80,
    /// 100 characters.
    Col100,
    /// 120 characters.
    Col120,
    /// A custom width in pixels.
    Custom(u32),
}

impl MaxLineWidth {
    /// Display name for the UI.
    pub fn display_name(&self) -> (s: &'static str)
        ensures
            s@ == match self {
                MaxLineWidth::Off => "Off"@,
                MaxLineWidth::Col80 => "80 characters"@,
                MaxLineWidth::Col100 => "100 characters"@,
                MaxLineWidth::Col120 => "120 characters"@,
                MaxLineWidth::Custom(_) => "Custom"@,
            },
    {
        match self {
            MaxLineWidth::Off => "Off",
            MaxLineWidth::Col80 => "80 characters",
            MaxLineWidth::Col100 => "100 characters",
            MaxLineWidth::Col120 => "120 characters",
            MaxLineWidth::Custom(_) => "Custom",
        }
    }

    /// Description of the setting.
    pub fn description(&self) -> (s: &'static str)
        ensures
            s@ == match self {
                MaxLineWidth::Off => "No width limit"@,
                MaxLineWidth::Col80 => "Traditional terminal width"@,
                MaxLineWidth::Col100 => "Comfortable reading width"@,
                MaxLineWidth::Col120 => "Wide monitor width"@,
                MaxLineWidth::Custom(_) => "Custom pixel width"@,
            },
    {
        match self {
            MaxLineWidth::Off => "No width limit",
            MaxLineWidth::Col80 => "Traditional terminal width",
            MaxLineWidth::Col100 => "Comfortable reading width",
            MaxLineWidth::Col120 => "Wide monitor width",
            MaxLineWidth::Custom(_) => "Custom pixel width",
        }
    }

    /// The preset widths (without `Custom`).
    pub fn presets() -> (r: &'static [MaxLineWidth])
        ensures
            r@ == seq![MaxLineWidth::Off, MaxLineWidth::Col80, MaxLineWidth::Col100, MaxLineWidth::Col120],
    {
        let r: &'static [MaxLineWidth] = &[MaxLineWidth::Off, MaxLineWidth::Col80, MaxLineWidth::Col100, MaxLineWidth::Col120];
        assert(r@ == seq![MaxLineWidth::Off, MaxLineWidth::Col80, MaxLineWidth::Col100, MaxLineWidth::Col120]);
        r
    }

    /// Whether this is a custom width.
    pub fn is_custom(&self) -> (r: bool)
        ensures
            r == (self is Custom),
    {
        match self {
            MaxLineWidth::Custom(_) => true,
            _ => false,
        }
    }

    /// The custom width in pixels, if any.
    pub fn custom_value(&self) -> (r: Option<u32>)
        ensures
            r == match self {
                MaxLineWidth::Custom(px) => Some(*px),
                _ => None,
            },
    {
        match self {
            MaxLineWidth::Custom(px) => Some(*px),
            _ => None,
        }
    }
}

impl Default for MaxLineWidth {
    /// No limit.
    fn default() -> (m: Self)
        ensures
            m == MaxLineWidth::Off,
    {
        MaxLineWidth::Off
    }
}

#[verifier::external_type_specification]
#[verifier::external_body]
pub struct ExLevelFilter(log::LevelFilter);

/// Log verbosity.
#[derive(Debug, Clone, Copy, PartialEq, Eq, Structural)]
pub enum LogLevel {
    /// Everything, including debug messages.
    Debug,
    /// Informational messages and above.
    Info,
    /// Warnings and errors (default).
    Warn,
    /// Errors only.
    Error,
    /// No logging.
    Off,
}

impl LogLevel {
    /// Display name.
    pub fn display_name(&self) -> (s: &'static str)
        ensures
            s@ == match self {
                LogLevel::Debug => "Debug"@,
                LogLevel::Info => "Info"@,
                LogLevel::Warn => "Warn"@,
                LogLevel::Error => "Error"@,
                LogLevel::Off => "Off"@,
            },
    {
        match self {
            LogLevel::Debug => "Debug",
            LogLevel::Info => "Info",
            LogLevel::Warn => "Warn",
            LogLevel::Error => "Error",
            LogLevel::Off => "Off",
        }
    }

    /// Description of the level.
    pub fn description(&self) -> (s: &'static str)
        ensures
            s@ == match self {
                LogLevel::Debug => "Most verbose, shows all debug messages"@,
                LogLevel::Info => "Informational messages and above"@,
                LogLevel::Warn => "Warnings and errors only (default)"@,
                LogLevel::Error => "Errors only"@,
                LogLevel::Off => "Disable all logging"@,
            },
    {
        match self {
            LogLevel::Debug => "Most verbose, shows all debug messages",
            LogLevel::Info => "Informational messages and above",
            LogLevel::Warn => "Warnings and errors only (default)",
            LogLevel::Error => "Errors only",
            LogLevel::Off => "Disable all logging",
        }
    }

    /// All levels, most verbose first.
    pub fn all() -> (r: &'static [LogLevel])
        ensures
            r@ == seq![LogLevel::Debug, LogLevel::Info, LogLevel::Warn, LogLevel::Error, LogLevel::Off],
    {
        let r: &'static [LogLevel] = &[LogLevel::Debug, LogLevel::Info, LogLevel::Warn, LogLevel::Error, LogLevel::Off];
        assert(r@ == seq![LogLevel::Debug, LogLevel::Info, LogLevel::Warn, LogLevel::Error, LogLevel::Off]);
        r
    }

    /// The `log` crate filter of the same name. The mapping is one variant to
    /// one variant and is not stated as a contract.
    #[verifier::external_body]
    pub fn to_level_filter(&self) -> log::LevelFilter {
        match self {
            LogLevel::Debug => log::LevelFilter::Debug,
            LogLevel::Info => log::LevelFilter::Info,
            LogLevel::Warn => log::LevelFilter::Warn,
            LogLevel::Error => log::LevelFilter::Error,
            LogLevel::Off => log::LevelFilter::Off,
        }
    }
}

impl Default for LogLevel {
    /// Warnings and errors.
    fn default() -> (l: Self)
        ensures
            l == LogLevel::Warn,
    {
        LogLevel::Warn
    }
}

/// Color theme.
#[derive(Debug, Clone, Copy, PartialEq, Eq, Structural)]
pub enum Theme {
    /// Light theme (default).
    Light,
    /// Dark theme.
    Dark,
    /// Follow the system.
    System,
}

impl Default for Theme {
    /// The light theme.
    fn default() -> (t: Self)
        ensures
            t == Theme::Light,
    {
        Theme::Light
    }
}

/// Editor font family.
#[derive(Debug, Clone, PartialEq, Eq)]
pub enum EditorFont {
    /// Inter (default).
    Inter,
    /// JetBrains Mono.
    JetBrainsMono,
    /// A system font chosen by name.
    Custom(String),
}

impl EditorFont {
    /// Display name: the built-in font's name, or the custom font's name.
    pub fn display_name(&self) -> (s: String)
        ensures
            s@ == match self {
                EditorFont::Inter => "Inter"@,
                EditorFont::JetBrainsMono => "JetBrains Mono"@,
                EditorFont::Custom(name) => name@,
            },
    {
        match self {
            EditorFont::Inter => String::from_str("Inter"),
            EditorFont::JetBrainsMono => String::from_str("JetBrains Mono"),
            EditorFont::Custom(name) => name.clone(),
        }
    }

    /// Description of the font.
    pub fn description(&self) -> (s: &'static str)
        ensures
            s@ == match self {
                EditorFont::Inter => "Modern, clean proportional font"@,
                EditorFont::JetBrainsMono => "Monospace font for code"@,
                EditorFont::Custom(_) => "Custom system font"@,
            },
    {
        match self {
            EditorFont::Inter => "Modern, clean proportional font",
            EditorFont::JetBrainsMono => "Monospace font for code",
            EditorFont::Custom(_) => "Custom system font",
        }
    }

    /// The built-in fonts.
    pub fn builtin_fonts() -> (r: &'static [EditorFont])
        ensures
            r@.len() == 2,
            r@[0] is Inter,
            r@[1] is JetBrainsMono,
    {
        let r: &'static [EditorFont] = &[EditorFont::Inter, EditorFont::JetBrainsMono];
        r
    }

    /// Whether this is a custom font.
    pub fn is_custom(&self) -> (r: bool)
        ensures
            r == (self is Custom),
    {
        match self {
            EditorFont::Custom(_) => true,
            _ => false,
        }
    }

    /// The custom font's name, if any.
    pub fn custom_name(&self) -> (r: Option<&str>)
        ensures
            r is Some <==> self is Custom,
            r is Some ==> r->0@ == self->Custom_0@,
    {
        match self {
            EditorFont::Custom(name) => Some(name.as_str()),
            _ => None,
        }
    }
}

impl Default for EditorFont {
    /// Inter.
    fn default() -> (f: Self)
        ensures
            f is Inter,
    {
        EditorFont::Inter
    }
}

/// Which regional CJK glyph variants take priority.
#[derive(Debug, Clone, Copy, PartialEq, Eq, Structural)]
pub enum CjkFontPreference {
    /// From the system locale (default).
    Auto,
    /// Korean.
    Korean,
    /// Simplified Chinese.
    SimplifiedChinese,
    /// Traditional Chinese.
    TraditionalChinese,
    /// Japanese.
    Japanese,
}

impl CjkFontPreference {
    /// Display name, with the language's own script.
    pub fn display_name(&self) -> (s: &'static str)
        ensures
            s@ == match self {
                CjkFontPreference::Auto => "Auto (System Locale)"@,
                CjkFontPreference::Korean => "Korean (\u{d55c}\u{ad6d}\u{c5b4})"@,
                CjkFontPreference::SimplifiedChinese => "Simplified Chinese (\u{7b80}\u{4f53}\u{4e2d}\u{6587})"@,
                CjkFontPreference::TraditionalChinese => "Traditional Chinese (\u{7e41}\u{9ad4}\u{4e2d}\u{6587})"@,
                CjkFontPreference::Japanese => "Japanese (\u{65e5}\u{672c}\u{8a9e})"@,
            },
    {
        match self {
            CjkFontPreference::Auto => "Auto (System Locale)",
            CjkFontPreference::Korean => "Korean (\u{d55c}\u{ad6d}\u{c5b4})",
            CjkFontPreference::SimplifiedChinese => "Simplified Chinese (\u{7b80}\u{4f53}\u{4e2d}\u{6587})",
            CjkFontPreference::TraditionalChinese => "Traditional Chinese (\u{7e41}\u{9ad4}\u{4e2d}\u{6587})",
            CjkFontPreference::Japanese => "Japanese (\u{65e5}\u{672c}\u{8a9e})",
        }
    }

    /// A Latin-only name for the preference selector.
    pub fn selector_display_name(&self) -> (s: &'static str)
        ensures
            s@ == match self {
                CjkFontPreference::Auto => "Auto (System Locale)"@,
                CjkFontPreference::Korean => "Korean (Hangul)"@,
                CjkFontPreference::SimplifiedChinese => "Simplified Chinese"@,
                CjkFontPreference::TraditionalChinese => "Traditional Chinese"@,
                CjkFontPreference::Japanese => "Japanese"@,
            },
    {
        match self {
            CjkFontPreference::Auto => "Auto (System Locale)",
            CjkFontPreference::Korean => "Korean (Hangul)",
            CjkFontPreference::SimplifiedChinese => "Simplified Chinese",
            CjkFontPreference::TraditionalChinese => "Traditional Chinese",
            CjkFontPreference::Japanese => "Japanese",
        }
    }

    /// Description of the preference.
    pub fn description(&self) -> (s: &'static str)
        ensures
            s@ == match self {
                CjkFontPreference::Auto => "Use system locale to determine CJK font priority"@,
                CjkFontPreference::Korean => "Prioritize Korean glyph variants"@,
                CjkFontPreference::SimplifiedChinese => "Prioritize Simplified Chinese glyph variants"@,
                CjkFontPreference::TraditionalChinese => "Prioritize Traditional Chinese glyph variants"@,
                CjkFontPreference::Japanese => "Prioritize Japanese glyph variants"@,
            },
    {
        match self {
            CjkFontPreference::Auto => "Use system locale to determine CJK font priority",
            CjkFontPreference::Korean => "Prioritize Korean glyph variants",
            CjkFontPreference::SimplifiedChinese => "Prioritize Simplified Chinese glyph variants",
            CjkFontPreference::TraditionalChinese => "Prioritize Traditional Chinese glyph variants",
            CjkFontPreference::Japanese => "Prioritize Japanese glyph variants",
        }
    }

    /// All preferences.
    pub fn all() -> (r: &'static [CjkFontPreference])
        ensures
            r@ == seq![CjkFontPreference::Auto, CjkFontPreference::Korean, CjkFontPreference::SimplifiedChinese, CjkFontPreference::TraditionalChinese, CjkFontPreference::Japanese],
    {
        let r: &'static [CjkFontPreference] = &[CjkFontPreference::Auto, CjkFontPreference::Korean, CjkFontPreference::SimplifiedChinese, CjkFontPreference::TraditionalChinese, CjkFontPreference::Japanese];
        assert(r@ == seq![CjkFontPreference::Auto, CjkFontPreference::Korean, CjkFontPreference::SimplifiedChinese, CjkFontPreference::TraditionalChinese, CjkFontPreference::Japanese]);
        r
    }

    /// The CJK font keys in priority order for the fallback chain.
    pub fn font_order(&self) -> (r: &'static [&'static str])
        ensures
            r@.len() == 4,
            match self {
                CjkFontPreference::Auto | CjkFontPreference::Korean =>
                    r@[0]@ == "CJK_KR"@ && r@[1]@ == "CJK_SC"@ && r@[2]@ == "CJK_TC"@ && r@[3]@ == "CJK_JP"@,
                CjkFontPreference::SimplifiedChinese =>
                    r@[0]@ == "CJK_SC"@ && r@[1]@ == "CJK_TC"@ && r@[2]@ == "CJK_KR"@ && r@[3]@ == "CJK_JP"@,
                CjkFontPreference::TraditionalChinese =>
                    r@[0]@ == "CJK_TC"@ && r@[1]@ == "CJK_SC"@ && r@[2]@ == "CJK_KR"@ && r@[3]@ == "CJK_JP"@,
                CjkFontPreference::Japanese =>
                    r@[0]@ == "CJK_JP"@ && r@[1]@ == "CJK_KR"@ && r@[2]@ == "CJK_SC"@ && r@[3]@ == "CJK_TC"@,
            },
    {
        match self {
            CjkFontPreference::Auto => {
                let r: &'static [&'static str] = &["CJK_KR", "CJK_SC", "CJK_TC", "CJK_JP"];
                r
            },
            CjkFontPreference::Korean => {
                let r: &'static [&'static str] = &["CJK_KR", "CJK_SC", "CJK_TC", "CJK_JP"];
                r
            },
            CjkFontPreference::SimplifiedChinese => {
                let r: &'static [&'static str] = &["CJK_SC", "CJK_TC", "CJK_KR", "CJK_JP"];
                r
            },
            CjkFontPreference::TraditionalChinese => {
                let r: &'static [&'static str] = &["CJK_TC", "CJK_SC", "CJK_KR", "CJK_JP"];
                r
            },
            CjkFontPreference::Japanese => {
                let r: &'static [&'static str] = &["CJK_JP", "CJK_KR", "CJK_SC", "CJK_TC"];
                r
            },
        }
    }
}

impl Default for CjkFontPreference {
    /// From the system locale.
    fn default() -> (p: Self)
        ensures
            p == CjkFontPreference::Auto,
    {
        CjkFontPreference::Auto
    }
}

/// Editor view modes.
#[derive(Debug, Clone, Copy, PartialEq, Eq, Structural, Hash)]
pub enum ViewMode {
    /// Raw markdown editing (default).
    Raw,
    /// WYSIWYG rendered editing.
    Rendered,
    /// Raw editor and rendered preview side by side.
    Split,
}

impl ViewMode {
    /// The next mode in the cycle Raw, Split, Rendered, Raw.
    pub open spec fn spec_toggle(self) -> ViewMode {
        match self {
            ViewMode::Raw => ViewMode::Split,
            ViewMode::Split => ViewMode::Rendered,
            ViewMode::Rendered => ViewMode::Raw,
        }
    }

    /// Cycles Raw, Split, Rendered, Raw.
    pub fn toggle(&self) -> (m: Self)
        ensures
            m == self.spec_toggle(),
    {
        match self {
            ViewMode::Raw => ViewMode::Split,
            ViewMode::Split => ViewMode::Rendered,
            ViewMode::Rendered => ViewMode::Raw,
        }
    }

    /// Display label.
    pub fn label(&self) -> (s: &'static str)
        ensures
            s@ == match self {
                ViewMode::Raw => "Raw"@,
                ViewMode::Rendered => "Rendered"@,
                ViewMode::Split => "Split"@,
            },
    {
        match self {
            ViewMode::Raw => "Raw",
            ViewMode::Rendered => "Rendered",
            ViewMode::Split => "Split",
        }
    }

    /// Icon for the mode.
    pub fn icon(&self) -> (s: &'static str)
        ensures
            s@ == match self {
                ViewMode::Raw => "\u{1f4dd}"@,
                ViewMode::Rendered => "\u{1f441}"@,
                ViewMode::Split => "\u{258c}\u{2590}"@,
            },
    {
        match self {
            ViewMode::Raw => "\u{1f4dd}",
            ViewMode::Rendered => "\u{1f441}",
            ViewMode::Split => "\u{258c}\u{2590}",
        }
    }

    /// Whether the mode shows the raw editor.
    pub fn shows_raw(&self) -> (r: bool)
        ensures
            r == (*self == ViewMode::Raw || *self == ViewMode::Split),
    {
        match self {
            ViewMode::Raw | ViewMode::Split => true,
            _ => false,
        }
    }

    /// Whether the mode shows the rendered preview.
    pub fn shows_rendered(&self) -> (r: bool)
        ensures
            r == (*self == ViewMode::Rendered || *self == ViewMode::Split),
    {
        match self {
            ViewMode::Rendered | ViewMode::Split => true,
            _ => false,
        }
    }

    /// All view modes.
    pub fn all() -> (r: &'static [ViewMode])
        ensures
            r@ == seq![ViewMode::Raw, ViewMode::Rendered, ViewMode::Split],
    {
        let r: &'static [ViewMode] = &[ViewMode::Raw, ViewMode::Rendered, ViewMode::Split];
        assert(r@ == seq![ViewMode::Raw, ViewMode::Rendered, ViewMode::Split]);
        r
    }

    /// Description of the mode.
    pub fn description(&self) -> (s: &'static str)
        ensures
            s@ == match self {
                ViewMode::Raw => "Plain markdown text editing"@,
                ViewMode::Rendered => "WYSIWYG rendered editing"@,
                ViewMode::Split => "Raw editor + rendered preview side by side"@,
            },
    {
        match self {
            ViewMode::Raw => "Plain markdown text editing",
            ViewMode::Rendered => "WYSIWYG rendered editing",
            ViewMode::Split => "Raw editor + rendered preview side by side",
        }
    }
}

/// Toggling the view mode three times comes back to the start.
pub proof fn lemma_view_mode_cycle(m: ViewMode)
    ensures
        m.spec_toggle().spec_toggle().spec_toggle() == m,
        m.spec_toggle() != m,
{
}

impl Default for ViewMode {
    /// Raw editing.
    fn default() -> (m: Self)
        ensures
            m == ViewMode::Raw,
    {
        ViewMode::Raw
    }
}

/// Minimap display mode.
#[derive(Debug, Clone, Copy, PartialEq, Eq, Structural)]
pub enum MinimapMode {
    /// Semantic for markdown, pixel otherwise (default).
    Auto,
    /// Always semantic.
    Semantic,
    /// Always pixel.
    Pixel,
}

impl MinimapMode {
    /// Display name.
    pub fn display_name(&self) -> (s: &'static str)
        ensures
            s@ == match self {
                MinimapMode::Auto => "Auto"@,
                MinimapMode::Semantic => "Semantic"@,
                MinimapMode::Pixel => "Pixel"@,
            },
    {
        match self {
            MinimapMode::Auto => "Auto",
            MinimapMode::Semantic => "Semantic",
            MinimapMode::Pixel => "Pixel",
        }
    }

    /// Description of the mode.
    pub fn description(&self) -> (s: &'static str)
        ensures
            s@ == match self {
                MinimapMode::Auto => "Semantic for markdown, pixel for code"@,
                MinimapMode::Semantic => "Structure-based with headings and sections"@,
                MinimapMode::Pixel => "Code overview with character rendering"@,
            },
    {
        match self {
            MinimapMode::Auto => "Semantic for markdown, pixel for code",
            MinimapMode::Semantic => "Structure-based with headings and sections",
            MinimapMode::Pixel => "Code overview with character rendering",
        }
    }

    /// All minimap modes.
    pub fn all() -> (r: &'static [MinimapMode])
        ensures
            r@ == seq![MinimapMode::Auto, MinimapMode::Semantic, MinimapMode::Pixel],
    {
        let r: &'static [MinimapMode] = &[MinimapMode::Auto, MinimapMode::Semantic, MinimapMode::Pixel];
        assert(r@ == seq![MinimapMode::Auto, MinimapMode::Semantic, MinimapMode::Pixel]);
        r
    }

    /// Whether to show the semantic minimap for a file of this kind.
    pub fn use_semantic(&self, is_markdown: bool) -> (r: bool)
        ensures
            r == match self {
                MinimapMode::Auto => is_markdown,
                MinimapMode::Semantic => true,
                MinimapMode::Pixel => false,
            },
    {
        match self {
            MinimapMode::Auto => is_markdown,
            MinimapMode::Semantic => true,
            MinimapMode::Pixel => false,
        }
    }
}

impl Default for MinimapMode {
    /// Automatic.
    fn default() -> (m: Self)
        ensures
            m == MinimapMode::Auto,
    {
        MinimapMode::Auto
    }
}

/// Side of the outline panel.
#[derive(Debug, Clone, Copy, PartialEq, Eq, Structural)]
pub enum OutlinePanelSide {
    /// Left.
    Left,
    /// Right (default).
    Right,
}

impl OutlinePanelSide {
    /// The other side.
    pub fn toggle(&self) -> (s: Self)
        ensures
            s != *self,
    {
        match self {
            OutlinePanelSide::Left => OutlinePanelSide::Right,
            OutlinePanelSide::Right => OutlinePanelSide::Left,
        }
    }

    /// Display label.
    pub fn label(&self) -> (s: &'static str)
        ensures
            s@ == match self {
                OutlinePanelSide::Left => "Left"@,
                OutlinePanelSide::Right => "Right"@,
            },
    {
        match self {
            OutlinePanelSide::Left => "Left",
            OutlinePanelSide::Right => "Right",
        }
    }
}

impl Default for OutlinePanelSide {
    /// Right.
    fn default() -> (s: Self)
        ensures
            s == OutlinePanelSide::Right,
    {
        OutlinePanelSide::Right
    }
}

/// `true`, the default of the boolean settings that start enabled.
pub fn default_true() -> (b: bool)
    ensures
        b,
{
    true
}

} // verus!
