//! Chartr's font catalog.
//!
//! The interface and terminal pickers offer the families below; most are
//! bundled with the application. Some bundled faces keep an internal family
//! name that differs from the public choice, so the name requested from the
//! text system is decided here. The font files themselves, and installing
//! the choice in the window, are the application's.

use vstd::prelude::*;

use crate::text::{chars_of, equals_text, same_chars};

verus! {

/// The terminal's bundled default face.
pub const MONOSPACE_FAMILY: &'static str = "IBM Plex Mono";

/// A picker choice. Its faces, when Chartr bundles any, are embedded by the
/// application.
#[derive(Debug, Clone, Copy)]
pub struct BundledFont {
    pub family: &'static str,
}

/// The interface families, in picker order.
pub open spec fn ui_families() -> Seq<Seq<char>> {
    seq![
        "IBM Plex Sans"@,
        "System UI"@,
        "Asap"@,
        "Barlow"@,
        "Cabin"@,
        "Comic Neue"@,
        "DM Sans"@,
        "Fira Sans"@,
        "Geist"@,
        "Hind"@,
        "Inter"@,
        "Jim Nightshade"@,
        "Karla"@,
        "Lato"@,
        "Merriweather Sans"@,
        "Noto Sans"@,
        "Nunito Sans"@,
        "Open Sans"@,
        "Oxygen"@,
        "PT Sans"@,
        "PT Serif"@,
        "Playpen Sans"@,
        "Poppins"@,
        "Roboto"@,
        "Work Sans"@,
    ]
}

/// The terminal families, in picker order.
pub open spec fn terminal_families() -> Seq<Seq<char>> {
    seq![
        "IBM Plex Mono"@,
        "Lilex"@,
        "Anonymous Pro"@,
        "Cousine"@,
        "Cutive Mono"@,
        "DM Mono"@,
        "Fira Code"@,
        "Inconsolata"@,
        "JetBrains Mono"@,
        "PT Mono"@,
        "Red Hat Mono"@,
        "Roboto Mono"@,
        "Source Code Pro"@,
        "Space Mono"@,
    ]
}

/// The family name the text system knows a choice by: Google's static
/// optical-size instances keep their internal names.
pub open spec fn spec_native_family(family: Seq<char>) -> Seq<char> {
    if family == "DM Sans"@ {
        "DM Sans 9pt"@
    } else if family == "Nunito Sans"@ {
        "Nunito Sans 12pt ExtraLight 12pt"@
    } else {
        family
    }
}

pub open spec fn font_families(fonts: Seq<BundledFont>) -> Seq<Seq<char>> {
    fonts.map_values(|f: BundledFont| f.family@)
}

impl BundledFont {
    /// The family to request from the text system for this choice.
    pub fn native_family(&self) -> (family: &'static str)
        ensures
            family@ == spec_native_family(self.family@),
    {
        let name = chars_of(self.family);
        if equals_text(&name, "DM Sans") {
            "DM Sans 9pt"
        } else if equals_text(&name, "Nunito Sans") {
            "Nunito Sans 12pt ExtraLight 12pt"
        } else {
            self.family
        }
    }
}

/// The interface choices.
pub fn ui_fonts() -> (fonts: Vec<BundledFont>)
    ensures
        font_families(fonts@) == ui_families(),
{
    let fonts = vec![
            BundledFont { family: "IBM Plex Sans" },
            BundledFont { family: "System UI" },
            BundledFont { family: "Asap" },
            BundledFont { family: "Barlow" },
            BundledFont { family: "Cabin" },
            BundledFont { family: "Comic Neue" },
            BundledFont { family: "DM Sans" },
            BundledFont { family: "Fira Sans" },
            BundledFont { family: "Geist" },
            BundledFont { family: "Hind" },
            BundledFont { family: "Inter" },
            BundledFont { family: "Jim Nightshade" },
            BundledFont { family: "Karla" },
            BundledFont { family: "Lato" },
            BundledFont { family: "Merriweather Sans" },
            BundledFont { family: "Noto Sans" },
            BundledFont { family: "Nunito Sans" },
            BundledFont { family: "Open Sans" },
            BundledFont { family: "Oxygen" },
            BundledFont { family: "PT Sans" },
            BundledFont { family: "PT Serif" },
            BundledFont { family: "Playpen Sans" },
            BundledFont { family: "Poppins" },
            BundledFont { family: "Roboto" },
            BundledFont { family: "Work Sans" },
    ];
    assert(font_families(fonts@) =~= ui_families());
    fonts
}

/// The terminal choices.
pub fn terminal_fonts() -> (fonts: Vec<BundledFont>)
    ensures
        font_families(fonts@) == terminal_families(),
{
    let fonts = vec![
            BundledFont { family: "IBM Plex Mono" },
            BundledFont { family: "Lilex" },
            BundledFont { family: "Anonymous Pro" },
            BundledFont { family: "Cousine" },
            BundledFont { family: "Cutive Mono" },
            BundledFont { family: "DM Mono" },
            BundledFont { family: "Fira Code" },
            BundledFont { family: "Inconsolata" },
            BundledFont { family: "JetBrains Mono" },
            BundledFont { family: "PT Mono" },
            BundledFont { family: "Red Hat Mono" },
            BundledFont { family: "Roboto Mono" },
            BundledFont { family: "Source Code Pro" },
            BundledFont { family: "Space Mono" },
    ];
    assert(font_families(fonts@) =~= terminal_families());
    fonts
}

/// The interface family to install for the configured one: a catalog
/// choice by its native name, anything else as configured.
pub open spec fn spec_ui_family(requested: Seq<char>) -> Seq<char> {
    if ui_families().contains(requested) {
        spec_native_family(requested)
    } else {
        requested
    }
}

pub fn ui_family(requested: &str) -> (family: String)
    ensures
        family@ == spec_ui_family(requested@),
{
    let fonts = ui_fonts();
    let ghost views = font_families(fonts@);
    let wanted = chars_of(requested);
    let mut i: usize = 0;
    while i < fonts.len()
        invariant
            views == font_families(fonts@),
            views == ui_families(),
            wanted@ == requested@,
            i <= fonts@.len(),
            forall|j: int| 0 <= j < i ==> views[j] != requested@,
        decreases fonts@.len() - i,
    {
        assert(views[i as int] == fonts@[i as int].family@);
        if same_chars(&chars_of(fonts[i].family), &wanted) {
            assert(ui_families().contains(requested@));
            return fonts[i].native_family().to_owned();
        }
        i = i + 1;
    }
    proof {
        if views.contains(requested@) {
            let j = choose|j: int| 0 <= j < views.len() && views[j] == requested@;
            assert(views[j] != requested@);
        }
    }
    requested.to_owned()
}

/// Whether the text system can rasterise the bundled terminal face: one of
/// the families it lists is that face.
pub fn text_renders(font_names: &Vec<String>) -> (renders: bool)
    ensures
        renders == font_names@.map_values(|n: String| n@).contains(MONOSPACE_FAMILY@),
{
    let ghost views = font_names@.map_values(|n: String| n@);
    let face = chars_of(MONOSPACE_FAMILY);
    let mut i: usize = 0;
    while i < font_names.len()
        invariant
            views == font_names@.map_values(|n: String| n@),
            face@ == MONOSPACE_FAMILY@,
            i <= font_names@.len(),
            forall|j: int| 0 <= j < i ==> views[j] != MONOSPACE_FAMILY@,
        decreases font_names@.len() - i,
    {
        assert(views[i as int] == font_names@[i as int]@);
        if same_chars(&chars_of(font_names[i].as_str()), &face) {
            return true;
        }
        i = i + 1;
    }
    proof {
        if views.contains(MONOSPACE_FAMILY@) {
            let j = choose|j: int| 0 <= j < views.len() && views[j] == MONOSPACE_FAMILY@;
            assert(views[j] != MONOSPACE_FAMILY@);
        }
    }
    false
}

} // verus!
