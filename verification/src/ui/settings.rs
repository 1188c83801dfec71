//! Settings rules: the note shape, cycled by the settings buttons, and the label
//! of the modifiers chosen before a game.

use vstd::prelude::*;

verus! {

/// The shape after `shape`: 0 (square), 1 (squircle), 2 (circle), then 0 again.
pub open spec fn next_shape(shape: u8) -> u8 {
    ((shape + 1) % 3) as u8
}

/// The shape before `shape`; an unknown shape goes back to 0.
pub open spec fn prev_shape(shape: u8) -> u8 {
    if shape == 0 {
        2
    } else if shape == 1 {
        0
    } else if shape == 2 {
        1
    } else {
        0
    }
}

pub fn next_note_shape(shape: u8) -> (r: u8)
    requires
        shape < 255,
    ensures
        r == next_shape(shape),
{
    (shape + 1) % 3
}

pub fn prev_note_shape(shape: u8) -> (r: u8)
    ensures
        r == prev_shape(shape),
{
    match shape {
        0 => 2,
        1 => 0,
        2 => 1,
        _ => 0,
    }
}

/// The name shown for a note shape; any unknown shape shows as a circle.
pub open spec fn shape_name_of(shape: u8) -> Seq<char> {
    if shape == 0 {
        "Carré"@
    } else if shape == 1 {
        "Squircle"@
    } else {
        "Cercle"@
    }
}

pub fn note_shape_name(shape: u8) -> (r: &'static str)
    ensures
        r@ == shape_name_of(shape),
{
    match shape {
        0 => "Carré",
        1 => "Squircle",
        _ => "Cercle",
    }
}

/// The label of the modifiers of a game: "NF" when no-fail is on, then the speed
/// label when the speed is not the normal one, joined by " • ".
pub open spec fn mods_label_of(no_fail: bool, speed: Option<Seq<char>>) -> Seq<char> {
    match speed {
        Some(s) => if no_fail {
            "NF"@ + " • "@ + s
        } else {
            s
        },
        None => if no_fail {
            "NF"@
        } else {
            Seq::empty()
        },
    }
}

/// The modifiers label, given the speed label (`None` at normal speed).
pub fn mods_label(no_fail: bool, speed_label: Option<String>) -> (r: String)
    ensures
        r@ == mods_label_of(no_fail, match speed_label {
            Some(s) => Some(s@),
            None => None,
        }),
{
    let mut label = String::new();
    if no_fail {
        label.append("NF");
    }
    match speed_label {
        Some(s) => {
            if no_fail {
                label.append(" • ");
            }
            label.append(s.as_str());
        },
        None => {},
    }
    proof {
        reveal_strlit("NF");
        reveal_strlit(" • ");
    }
    label
}

/// Stepping back undoes stepping forward, and stepping forward undoes stepping
/// back, on the three shapes.
pub proof fn lemma_shape_steps_undo(shape: u8)
    requires
        shape < 3,
    ensures
        prev_shape(next_shape(shape)) == shape,
        next_shape(prev_shape(shape)) == shape,
{
}

/// Any shape steps into the three shapes.
pub proof fn lemma_shape_steps_in_range(shape: u8)
    ensures
        next_shape(shape) < 3,
        prev_shape(shape) < 3,
{
}

} // verus!
