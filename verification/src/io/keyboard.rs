//! The keyboard scancode state machine: shift and caps-lock tracking and the
//! scancode-set-1 character table. Reading the scancode from the controller
//! port is the hardware layer's part.

use vstd::prelude::*;

verus! {

/// One decoded key event.
#[derive(Debug, Clone, Copy, PartialEq, Eq, Structural)]
pub struct KeyEvent {
    /// The character the key produces, `'\0'` where it produces none.
    pub character: char,
    /// The key went down (as opposed to up).
    pub pressed: bool,
    /// The raw scancode.
    pub scancode: u8,
}

/// The plain and shifted character of each of the first 58 scancodes of
/// scancode set 1; `'\0'` for keys producing no character.
pub open spec fn spec_scancode_chars(idx: u8) -> (char, char) {
    match idx {
        1u8 => ('\x1b', '\x1b'),
        2u8 => ('1', '!'),
        3u8 => ('2', '@'),
        4u8 => ('3', '\u{a3}'),
        5u8 => ('4', '$'),
        6u8 => ('5', '%'),
        7u8 => ('6', '^'),
        8u8 => ('7', '&'),
        9u8 => ('8', '*'),
        10u8 => ('9', '('),
        11u8 => ('0', ')'),
        12u8 => ('-', '_'),
        13u8 => ('=', '+'),
        14u8 => ('\x10', '\x10'),
        15u8 => ('\x11', '\x11'),
        16u8 => ('q', 'Q'),
        17u8 => ('w', 'W'),
        18u8 => ('e', 'E'),
        19u8 => ('r', 'R'),
        20u8 => ('t', 'T'),
        21u8 => ('y', 'Y'),
        22u8 => ('u', 'U'),
        23u8 => ('i', 'I'),
        24u8 => ('o', 'O'),
        25u8 => ('p', 'P'),
        26u8 => ('[', '{'),
        27u8 => (']', '}'),
        28u8 => ('\n', '\n'),
        30u8 => ('a', 'A'),
        31u8 => ('s', 'S'),
        32u8 => ('d', 'D'),
        33u8 => ('f', 'F'),
        34u8 => ('g', 'G'),
        35u8 => ('h', 'H'),
        36u8 => ('j', 'J'),
        37u8 => ('k', 'K'),
        38u8 => ('l', 'L'),
        39u8 => (';', ':'),
        40u8 => ('\'', '"'),
        41u8 => ('`', '~'),
        43u8 => ('\\', '|'),
        44u8 => ('z', 'Z'),
        45u8 => ('x', 'X'),
        46u8 => ('c', 'C'),
        47u8 => ('v', 'V'),
        48u8 => ('b', 'B'),
        49u8 => ('n', 'N'),
        50u8 => ('m', 'M'),
        51u8 => (',', '<'),
        52u8 => ('.', '>'),
        53u8 => ('/', '?'),
        55u8 => ('*', '*'),
        57u8 => (' ', ' '),
        _ => ('\0', '\0'),
    }
}

/// The shift state after seeing `scancode`: left and right shift press and
/// release toggle it.
pub open spec fn spec_next_shift(shift: bool, scancode: u8) -> bool {
    if scancode == 0x2a || scancode == 0x36 {
        true
    } else if scancode == 0xaa || scancode == 0xb6 {
        false
    } else {
        shift
    }
}

/// The caps-lock state after seeing `scancode`: the caps-lock key toggles it.
pub open spec fn spec_next_capslock(capslock: bool, scancode: u8) -> bool {
    if scancode == 0x3a {
        !capslock
    } else {
        capslock
    }
}

/// The character `scancode` produces under the given (already updated) shift
/// and caps-lock state.
pub open spec fn spec_scancode_char(shift: bool, capslock: bool, scancode: u8) -> char {
    let idx = scancode & 0x7f;
    if idx < 58 {
        if capslock ^ shift {
            spec_scancode_chars(idx).1
        } else {
            spec_scancode_chars(idx).0
        }
    } else {
        '\0'
    }
}

/// Tracks the keyboard's modifier state and decodes scancodes.
#[derive(Debug, Clone, Copy, PartialEq, Eq, Structural)]
pub struct Keyboard {
    /// A shift key is held.
    pub shift: bool,
    /// Caps lock is on.
    pub capslock: bool,
}

impl Keyboard {
    /// A keyboard with no modifier active.
    pub fn new() -> (r: Keyboard)
        ensures
            !r.shift,
            !r.capslock,
    {
        Keyboard { shift: false, capslock: false }
    }

    /// Decodes one raw scancode: updates the modifier state, then yields the
    /// key event with the character under the new state. Scancodes at or
    /// above 0x7f are key releases.
    pub fn parse_scancode(&mut self, scancode: u8) -> (r: KeyEvent)
        ensures
            final(self).shift == spec_next_shift(old(self).shift, scancode),
            final(self).capslock == spec_next_capslock(old(self).capslock, scancode),
            r.character == spec_scancode_char(
                final(self).shift,
                final(self).capslock,
                scancode,
            ),
            r.pressed == (scancode < 0x7f),
            r.scancode == scancode,
    {
        let scancode_idx = scancode & 0x7f;
        proof {
            assert((scancode & 0x7fu8) < 0x80) by (bit_vector);
        }
        match scancode {
            0x2a | 0x36 => {
                self.shift = true;
            },
            0xaa | 0xb6 => {
                self.shift = false;
            },
            0x3a => {
                self.capslock = !self.capslock;
            },
            _ => {},
        }
        let character = if scancode_idx < 58 {
            let pair = scancode_chars(scancode_idx);
            if self.capslock ^ self.shift {
                pair.1
            } else {
                pair.0
            }
        } else {
            '\0'
        };
        KeyEvent { character: character, pressed: scancode < 0x7f, scancode: scancode }
    }
}

/// The character table as executable code, equal to its specification.
fn scancode_chars(idx: u8) -> (r: (char, char))
    ensures
        r == spec_scancode_chars(idx),
{
    match idx {
        1u8 => ('\x1b', '\x1b'),
        2u8 => ('1', '!'),
        3u8 => ('2', '@'),
        4u8 => ('3', '\u{a3}'),
        5u8 => ('4', '$'),
        6u8 => ('5', '%'),
        7u8 => ('6', '^'),
        8u8 => ('7', '&'),
        9u8 => ('8', '*'),
        10u8 => ('9', '('),
        11u8 => ('0', ')'),
        12u8 => ('-', '_'),
        13u8 => ('=', '+'),
        14u8 => ('\x10', '\x10'),
        15u8 => ('\x11', '\x11'),
        16u8 => ('q', 'Q'),
        17u8 => ('w', 'W'),
        18u8 => ('e', 'E'),
        19u8 => ('r', 'R'),
        20u8 => ('t', 'T'),
        21u8 => ('y', 'Y'),
        22u8 => ('u', 'U'),
        23u8 => ('i', 'I'),
        24u8 => ('o', 'O'),
        25u8 => ('p', 'P'),
        26u8 => ('[', '{'),
        27u8 => (']', '}'),
        28u8 => ('\n', '\n'),
        30u8 => ('a', 'A'),
        31u8 => ('s', 'S'),
        32u8 => ('d', 'D'),
        33u8 => ('f', 'F'),
        34u8 => ('g', 'G'),
        35u8 => ('h', 'H'),
        36u8 => ('j', 'J'),
        37u8 => ('k', 'K'),
        38u8 => ('l', 'L'),
        39u8 => (';', ':'),
        40u8 => ('\'', '"'),
        41u8 => ('`', '~'),
        43u8 => ('\\', '|'),
        44u8 => ('z', 'Z'),
        45u8 => ('x', 'X'),
        46u8 => ('c', 'C'),
        47u8 => ('v', 'V'),
        48u8 => ('b', 'B'),
        49u8 => ('n', 'N'),
        50u8 => ('m', 'M'),
        51u8 => (',', '<'),
        52u8 => ('.', '>'),
        53u8 => ('/', '?'),
        55u8 => ('*', '*'),
        57u8 => (' ', ' '),
        _ => ('\0', '\0'),
    }
}

} // verus!
