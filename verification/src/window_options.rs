//! The launcher window's corner radius, size and location as the
//! preferences window names them, and how a selected name is read back.
use vstd::prelude::*;
use crate::text::chars_of;
use crate::shortcut::equal_chars;

verus! {

/// How round the launcher window's corners are.
#[derive(Debug, Clone, Copy, PartialEq, Eq, Structural)]
pub enum RadiusPreference {
    Small,
    Medium,
    Custom,
    Large,
}

/// How large the launcher window is drawn.
#[derive(Debug, Clone, Copy, PartialEq, Eq, Structural)]
pub enum LauncherSize {
    Small,
    Medium,
    Large,
    ExtraLarge,
}

/// Where on the screen the launcher window stands.
#[derive(Debug, Clone, Copy, PartialEq, Eq, Structural)]
pub enum LauncherPlacement {
    Center,
    RaisedCenter,
    Custom,
}

/// The name a radius is shown under: a custom radius is shown as the
/// medium one.
pub open spec fn radius_label_spec(radius: RadiusPreference) -> Seq<char> {
    match radius {
        RadiusPreference::Small => "Small"@,
        RadiusPreference::Large => "Large"@,
        _ => "Medium"@,
    }
}

/// The radius a selected name stands for: `Small`, `Large`, and anything
/// else the medium one.
pub open spec fn parse_radius_spec(value: Seq<char>) -> RadiusPreference {
    if value == "Small"@ {
        RadiusPreference::Small
    } else if value == "Large"@ {
        RadiusPreference::Large
    } else {
        RadiusPreference::Medium
    }
}

/// The name a window size is shown under.
pub open spec fn size_label_spec(size: LauncherSize) -> Seq<char> {
    match size {
        LauncherSize::Small => "Small"@,
        LauncherSize::Medium => "Medium"@,
        LauncherSize::Large => "Large"@,
        LauncherSize::ExtraLarge => "Extra Large"@,
    }
}

/// The window size a selected name stands for: `Small`, `Large`,
/// `Extra Large`, and anything else the medium one.
pub open spec fn parse_size_spec(value: Seq<char>) -> LauncherSize {
    if value == "Small"@ {
        LauncherSize::Small
    } else if value == "Large"@ {
        LauncherSize::Large
    } else if value == "Extra Large"@ {
        LauncherSize::ExtraLarge
    } else {
        LauncherSize::Medium
    }
}

/// The name a window location is shown under: every location but the
/// centre is shown as above the centre.
pub open spec fn placement_label_spec(placement: LauncherPlacement) -> Seq<char> {
    match placement {
        LauncherPlacement::Center => "Center"@,
        _ => "Above Center"@,
    }
}

/// The window location a selected name stands for: `Center`, and anything
/// else above the centre.
pub open spec fn parse_placement_spec(value: Seq<char>) -> LauncherPlacement {
    if value == "Center"@ {
        LauncherPlacement::Center
    } else {
        LauncherPlacement::RaisedCenter
    }
}

/// Whether two texts hold the same characters.
fn same_text(value: &str, word: &str) -> (r: bool)
    ensures
        r == (value@ == word@),
{
    let v = chars_of(value);
    let w = chars_of(word);
    equal_chars(v.as_slice(), w.as_slice())
}

/// The name a radius is shown under.
pub fn radius_label(radius: RadiusPreference) -> (r: &'static str)
    ensures
        r@ == radius_label_spec(radius),
{
    match radius {
        RadiusPreference::Small => "Small",
        RadiusPreference::Medium | RadiusPreference::Custom => "Medium",
        RadiusPreference::Large => "Large",
    }
}

/// The name a window size is shown under.
pub fn size_label(size: LauncherSize) -> (r: &'static str)
    ensures
        r@ == size_label_spec(size),
{
    match size {
        LauncherSize::Small => "Small",
        LauncherSize::Medium => "Medium",
        LauncherSize::Large => "Large",
        LauncherSize::ExtraLarge => "Extra Large",
    }
}

/// The name a window location is shown under.
pub fn placement_label(placement: LauncherPlacement) -> (r: &'static str)
    ensures
        r@ == placement_label_spec(placement),
{
    match placement {
        LauncherPlacement::Center => "Center",
        LauncherPlacement::RaisedCenter | LauncherPlacement::Custom => "Above Center",
    }
}

/// The radius a selected name stands for.
pub fn parse_radius(value: &str) -> (r: RadiusPreference)
    ensures
        r == parse_radius_spec(value@),
{
    if same_text(value, "Small") {
        RadiusPreference::Small
    } else if same_text(value, "Large") {
        RadiusPreference::Large
    } else {
        RadiusPreference::Medium
    }
}

/// The window size a selected name stands for.
pub fn parse_size(value: &str) -> (r: LauncherSize)
    ensures
        r == parse_size_spec(value@),
{
    if same_text(value, "Small") {
        LauncherSize::Small
    } else if same_text(value, "Large") {
        LauncherSize::Large
    } else if same_text(value, "Extra Large") {
        LauncherSize::ExtraLarge
    } else {
        LauncherSize::Medium
    }
}

/// The window location a selected name stands for.
pub fn parse_placement(value: &str) -> (r: LauncherPlacement)
    ensures
        r == parse_placement_spec(value@),
{
    if same_text(value, "Center") {
        LauncherPlacement::Center
    } else {
        LauncherPlacement::RaisedCenter
    }
}

/// Reading back the name a radius is shown under gives the radius, except
/// a custom radius, which reads back as the medium one.
pub proof fn lemma_radius_label_reads_back(radius: RadiusPreference)
    ensures
        parse_radius_spec(radius_label_spec(radius)) == (if radius == RadiusPreference::Custom {
            RadiusPreference::Medium
        } else {
            radius
        }),
{
    reveal_strlit("Small");
    reveal_strlit("Medium");
    reveal_strlit("Large");
    assert("Small"@[0] != "Large"@[0]);
    assert("Medium"@.len() != "Small"@.len() && "Medium"@.len() != "Large"@.len());
}

/// Reading back the name a window size is shown under gives the size.
pub proof fn lemma_size_label_reads_back(size: LauncherSize)
    ensures
        parse_size_spec(size_label_spec(size)) == size,
{
    reveal_strlit("Small");
    reveal_strlit("Medium");
    reveal_strlit("Large");
    reveal_strlit("Extra Large");
    assert("Small"@[0] != "Large"@[0]);
    assert("Medium"@.len() != "Small"@.len() && "Medium"@.len() != "Large"@.len());
    assert("Extra Large"@.len() != "Small"@.len() && "Extra Large"@.len() != "Large"@.len());
}

/// Reading back the name a window location is shown under gives the
/// centre for the centre and above the centre for every other location.
pub proof fn lemma_placement_label_reads_back(placement: LauncherPlacement)
    ensures
        parse_placement_spec(placement_label_spec(placement)) == (if placement
            == LauncherPlacement::Center {
            LauncherPlacement::Center
        } else {
            LauncherPlacement::RaisedCenter
        }),
{
    reveal_strlit("Center");
    reveal_strlit("Above Center");
    assert("Center"@.len() != "Above Center"@.len());
}

} // verus!
