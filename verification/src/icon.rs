//! Icon positions of a tree row and the glyph texts of the built-in
//! themes. Themes are a rendering concern only: they are consulted while
//! building rows, never during state transitions.

use vstd::prelude::*;

verus! {

/// The logical icon positions in a tree row. More may be added later:
/// theme implementations keep a fallback arm.
#[derive(Debug, Clone, Copy, PartialEq, Eq, Structural)]
#[non_exhaustive]
pub enum IconRole {
    /// A collapsed directory.
    FolderClosed,
    /// An expanded directory.
    FolderOpen,
    /// A non-directory entry.
    File,
    /// A directory whose scan failed.
    Error,
    /// Caret for a collapsed directory.
    CaretRight,
    /// Caret for an expanded directory (or a loading indicator).
    CaretDown,
}

/// The default theme: Unicode glyphs in the ambient font.
#[derive(Debug, Clone, Copy, PartialEq, Eq, Structural)]
pub struct UnicodeTheme;

/// The Lucide vector-glyph theme; needs the `lucide` font family
/// registered with the renderer, otherwise glyphs render as tofu.
#[derive(Debug, Clone, Copy, PartialEq, Eq, Structural)]
pub struct LucideTheme;

/// Raw bytes of the Lucide icon font, for registering the `lucide`
/// font family; empty here, to be supplied by the application.
pub const LUCIDE_FONT_BYTES: &'static [u8; 0] = &[];

/// The Unicode theme's glyph for each role.
pub open spec fn unicode_glyph_spec(role: IconRole) -> Seq<char> {
    match role {
        IconRole::FolderClosed => "\u{1F4C1}"@,
        IconRole::FolderOpen => "\u{1F4C2}"@,
        IconRole::File => "\u{1F4C4}"@,
        IconRole::Error => "\u{26A0}"@,
        IconRole::CaretRight => "\u{25B8}"@,
        IconRole::CaretDown => "\u{25BE}"@,
    }
}

/// The Lucide theme's glyph (a private-use code point of the Lucide
/// font) for each role.
pub open spec fn lucide_glyph_spec(role: IconRole) -> Seq<char> {
    match role {
        IconRole::FolderClosed => "\u{ea83}"@,
        IconRole::FolderOpen => "\u{ea84}"@,
        IconRole::File => "\u{ea7f}"@,
        IconRole::Error => "\u{ea78}"@,
        IconRole::CaretRight => "\u{ea59}"@,
        IconRole::CaretDown => "\u{ea56}"@,
    }
}

impl UnicodeTheme {
    /// The glyph text for `role`.
    pub fn glyph_text(&self, role: IconRole) -> (r: &'static str)
        ensures
            r@ == unicode_glyph_spec(role),
    {
        match role {
            IconRole::FolderClosed => "\u{1F4C1}",
            IconRole::FolderOpen => "\u{1F4C2}",
            IconRole::File => "\u{1F4C4}",
            IconRole::Error => "\u{26A0}",
            IconRole::CaretRight => "\u{25B8}",
            IconRole::CaretDown => "\u{25BE}",
        }
    }

    /// The CSS font family; `None` inherits the row's font.
    pub fn font_family(&self) -> (r: Option<&'static str>)
        ensures
            r is None,
    {
        None
    }
}

impl LucideTheme {
    /// The glyph text for `role`.
    pub fn glyph_text(&self, role: IconRole) -> (r: &'static str)
        ensures
            r@ == lucide_glyph_spec(role),
    {
        match role {
            IconRole::FolderClosed => "\u{ea83}",
            IconRole::FolderOpen => "\u{ea84}",
            IconRole::File => "\u{ea7f}",
            IconRole::Error => "\u{ea78}",
            IconRole::CaretRight => "\u{ea59}",
            IconRole::CaretDown => "\u{ea56}",
        }
    }

    /// The CSS font family the glyphs need.
    pub fn font_family(&self) -> (r: Option<&'static str>)
        ensures
            r matches Some(f) && f@ == "lucide"@,
    {
        Some("lucide")
    }
}

/// What the caret slot of a row shows.
#[derive(Debug, Clone, Copy, PartialEq, Eq, Structural)]
pub enum CaretKind {
    /// Nothing: the row cannot be expanded.
    Blank,
    /// An ellipsis: the directory is expanded and its scan is in flight.
    Loading,
    /// The glyph of a caret role.
    Glyph(IconRole),
}

/// The caret of a directory-tree row: blank for a file, an ellipsis
/// while an expanded directory is still loading, otherwise pointing down
/// when expanded and right when collapsed.
pub open spec fn dir_caret_spec(is_dir: bool, is_expanded: bool, is_loaded: bool) -> CaretKind {
    if !is_dir {
        CaretKind::Blank
    } else if is_expanded && !is_loaded {
        CaretKind::Loading
    } else if is_expanded {
        CaretKind::Glyph(IconRole::CaretDown)
    } else {
        CaretKind::Glyph(IconRole::CaretRight)
    }
}

/// The caret of a directory-tree row (see [`dir_caret_spec`]).
pub fn dir_row_caret(is_dir: bool, is_expanded: bool, is_loaded: bool) -> (r: CaretKind)
    ensures
        r == dir_caret_spec(is_dir, is_expanded, is_loaded),
{
    if !is_dir {
        CaretKind::Blank
    } else if is_expanded && !is_loaded {
        CaretKind::Loading
    } else if is_expanded {
        CaretKind::Glyph(IconRole::CaretDown)
    } else {
        CaretKind::Glyph(IconRole::CaretRight)
    }
}

/// The icon of a directory-tree row: an error marker wins, then a file
/// icon, then an open or closed folder.
pub open spec fn dir_icon_spec(is_dir: bool, is_expanded: bool, has_error: bool) -> IconRole {
    if has_error {
        IconRole::Error
    } else if !is_dir {
        IconRole::File
    } else if is_expanded {
        IconRole::FolderOpen
    } else {
        IconRole::FolderClosed
    }
}

/// The icon of a directory-tree row (see [`dir_icon_spec`]).
pub fn dir_row_icon(is_dir: bool, is_expanded: bool, has_error: bool) -> (r: IconRole)
    ensures
        r == dir_icon_spec(is_dir, is_expanded, has_error),
{
    if has_error {
        IconRole::Error
    } else if !is_dir {
        IconRole::File
    } else if is_expanded {
        IconRole::FolderOpen
    } else {
        IconRole::FolderClosed
    }
}

/// The caret of an item-tree row: blank for a leaf, otherwise pointing
/// down when expanded and right when collapsed.
pub open spec fn item_caret_spec(has_children: bool, is_expanded: bool) -> CaretKind {
    if !has_children {
        CaretKind::Blank
    } else if is_expanded {
        CaretKind::Glyph(IconRole::CaretDown)
    } else {
        CaretKind::Glyph(IconRole::CaretRight)
    }
}

/// The caret of an item-tree row (see [`item_caret_spec`]).
pub fn item_row_caret(has_children: bool, is_expanded: bool) -> (r: CaretKind)
    ensures
        r == item_caret_spec(has_children, is_expanded),
{
    if !has_children {
        CaretKind::Blank
    } else if is_expanded {
        CaretKind::Glyph(IconRole::CaretDown)
    } else {
        CaretKind::Glyph(IconRole::CaretRight)
    }
}

/// The icon of an item-tree row: an item with children is a folder,
/// open when expanded; a leaf is a file.
pub open spec fn item_icon_spec(has_children: bool, is_expanded: bool) -> IconRole {
    if has_children && is_expanded {
        IconRole::FolderOpen
    } else if has_children {
        IconRole::FolderClosed
    } else {
        IconRole::File
    }
}

/// The icon of an item-tree row (see [`item_icon_spec`]).
pub fn item_row_icon(has_children: bool, is_expanded: bool) -> (r: IconRole)
    ensures
        r == item_icon_spec(has_children, is_expanded),
{
    if has_children && is_expanded {
        IconRole::FolderOpen
    } else if has_children {
        IconRole::FolderClosed
    } else {
        IconRole::File
    }
}

} // verus!
