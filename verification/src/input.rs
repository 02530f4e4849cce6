//! What the keyboard and the pointer do to the spawner.

use vstd::prelude::*;
use crate::cells::{Cell, RadialSpawner};
use crate::rules::{FIRE_HEAT, WOOD_FUEL};

verus! {

/// The keys that stand for a material; `Other` is any other key.
#[derive(Copy, Clone, Debug, PartialEq, Eq, Structural)]
pub enum Key {
    Q,
    W,
    E,
    R,
    T,
    Y,
    U,
    I,
    O,
    P,
    Other,
}

/// An input event, as far as the spawner is concerned.
#[derive(Copy, Clone, Debug, PartialEq, Eq, Structural)]
pub enum InputEvent {
    /// The pointer is over the cell `(x, y)`.
    MouseMotion { x: i32, y: i32 },
    MouseButtonDown,
    MouseButtonUp,
    KeyDown { key: Key },
    /// Anything else.
    Other,
}

/// The material that `key` selects, as the spawner writes it. The keys of
/// materials that have no rule yet select nothing.
pub open spec fn key_material(key: Key) -> Option<Cell> {
    match key {
        Key::Q => Some(Cell::Wood { fuel: WOOD_FUEL }),
        Key::W => Some(Cell::Fire { heat: FIRE_HEAT }),
        Key::E => Some(Cell::Seed),
        Key::R => Some(Cell::Water { dx: 0 }),
        Key::T => Some(Cell::Acid { t: 0 }),
        Key::Y => Some(Cell::Sand),
        _ => None,
    }
}

/// The material that `key` selects.
pub fn material_for(key: Key) -> (m: Option<Cell>)
    ensures
        m == key_material(key),
{
    match key {
        Key::Q => Some(Cell::Wood { fuel: WOOD_FUEL }),
        Key::W => Some(Cell::Fire { heat: FIRE_HEAT }),
        Key::E => Some(Cell::Seed),
        Key::R => Some(Cell::Water { dx: 0 }),
        Key::T => Some(Cell::Acid { t: 0 }),
        Key::Y => Some(Cell::Sand),
        _ => None,
    }
}

/// Applies `event` to `spawner`: the pointer moves the brush, the button
/// switches the spawner on and off, a material's key selects the material,
/// and nothing else changes anything.
pub fn update_spawner(event: InputEvent, spawner: &mut RadialSpawner)
    ensures
        final(spawner).offsets() == old(spawner).offsets(),
        final(spawner).position() == match event {
            InputEvent::MouseMotion { x, y } => (x, y),
            _ => old(spawner).position(),
        },
        final(spawner).is_enabled() == match event {
            InputEvent::MouseButtonDown => true,
            InputEvent::MouseButtonUp => false,
            _ => old(spawner).is_enabled(),
        },
        final(spawner).material() == match event {
            InputEvent::KeyDown { key } => match key_material(key) {
                Some(cell) => cell,
                None => old(spawner).material(),
            },
            _ => old(spawner).material(),
        },
{
    match event {
        InputEvent::MouseMotion { x, y } => {
            spawner.set_pos(x, y);
        },
        InputEvent::MouseButtonDown => {
            spawner.enable();
        },
        InputEvent::MouseButtonUp => {
            spawner.disable();
        },
        InputEvent::KeyDown { key } => {
            match material_for(key) {
                Some(cell) => {
                    spawner.set_cell(cell);
                },
                None => {},
            }
        },
        InputEvent::Other => {},
    }
}

/// Line `i` of the help text: the name of a key or button, and what it
/// does.
pub open spec fn key_binding(i: int) -> (Seq<char>, Seq<char>) {
    if i == 0 {
        ("Q"@, "Wood"@)
    } else if i == 1 {
        ("W"@, "Fire"@)
    } else if i == 2 {
        ("E"@, "Seed"@)
    } else if i == 3 {
        ("R"@, "Water"@)
    } else if i == 4 {
        ("T"@, "Acid"@)
    } else if i == 5 {
        ("Y"@, "Sand"@)
    } else if i == 6 {
        ("U"@, "Rocket"@)
    } else if i == 7 {
        ("I"@, "Stone"@)
    } else if i == 8 {
        ("O"@, "Bomb"@)
    } else if i == 9 {
        ("P"@, "Ice"@)
    } else if i == 10 {
        ("LMB"@, "Spawn"@)
    } else if i == 11 {
        ("DEL"@, "Clear"@)
    } else {
        ("ESC"@, "Exit"@)
    }
}

/// The help text: thirteen lines, each the name of a key or button and what
/// it does.
pub fn get_key_bindings() -> (bindings: Vec<(String, String)>)
    ensures
        bindings@.len() == 13,
        forall|i: int|
            0 <= i < 13 ==> (#[trigger] bindings@[i]).0@ == key_binding(i).0 && bindings@[i].1@
                == key_binding(i).1,
{
    let mut bindings: Vec<(String, String)> = Vec::new();
    bindings.push(("Q".to_owned(), "Wood".to_owned()));
    bindings.push(("W".to_owned(), "Fire".to_owned()));
    bindings.push(("E".to_owned(), "Seed".to_owned()));
    bindings.push(("R".to_owned(), "Water".to_owned()));
    bindings.push(("T".to_owned(), "Acid".to_owned()));
    bindings.push(("Y".to_owned(), "Sand".to_owned()));
    bindings.push(("U".to_owned(), "Rocket".to_owned()));
    bindings.push(("I".to_owned(), "Stone".to_owned()));
    bindings.push(("O".to_owned(), "Bomb".to_owned()));
    bindings.push(("P".to_owned(), "Ice".to_owned()));
    bindings.push(("LMB".to_owned(), "Spawn".to_owned()));
    bindings.push(("DEL".to_owned(), "Clear".to_owned()));
    bindings.push(("ESC".to_owned(), "Exit".to_owned()));
    bindings
}

} // verus!
