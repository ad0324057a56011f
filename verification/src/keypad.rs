use vstd::prelude::*;

verus! {

/// A key event as the keypad logic reads it: a plain character, a character
/// struck with Ctrl held, or any other input.
#[derive(Clone, Copy, Debug, PartialEq, Eq, Structural)]
pub enum KeyInput {
    Char(char),
    Ctrl(char),
    Other,
}

/// The one error polling can raise: the quit chord (Ctrl-c) was struck.
#[derive(Clone, Copy, Debug, PartialEq, Eq, Structural)]
pub enum PollError {
    Interrupted,
}

/// The key code a character maps to, if any.  The 16 hexadecimal keys sit
/// under the 4x4 grid 1234 / qwer / asdf / zxcv.
pub open spec fn key_of_char(c: char) -> Option<int> {
    if c == '1' {
        Some(0x0int)
    } else if c == '2' {
        Some(0x1int)
    } else if c == '3' {
        Some(0x2int)
    } else if c == '4' {
        Some(0x3int)
    } else if c == 'q' {
        Some(0x4int)
    } else if c == 'w' {
        Some(0x5int)
    } else if c == 'e' {
        Some(0x6int)
    } else if c == 'r' {
        Some(0x7int)
    } else if c == 'a' {
        Some(0x8int)
    } else if c == 's' {
        Some(0x9int)
    } else if c == 'd' {
        Some(0xaint)
    } else if c == 'f' {
        Some(0xbint)
    } else if c == 'z' {
        Some(0xcint)
    } else if c == 'x' {
        Some(0xdint)
    } else if c == 'c' {
        Some(0xeint)
    } else if c == 'v' {
        Some(0xfint)
    } else {
        None
    }
}

/// A keypad snapshot with every key up.
pub open spec fn no_keys() -> Seq<bool> {
    Seq::new(16, |j: int| false)
}

/// A keypad snapshot with exactly key `k` down.
pub open spec fn one_key(k: int) -> Seq<bool> {
    Seq::new(16, |j: int| j == k)
}

/// What a poll of one key event yields: Ctrl-c interrupts; a character on
/// the key grid presses exactly its key; everything else presses none.
pub open spec fn poll_spec(event: Option<KeyInput>) -> Result<Seq<bool>, PollError> {
    match event {
        None => Ok(no_keys()),
        Some(k) => match k {
            KeyInput::Ctrl(c) => if c == 'c' {
                Err(PollError::Interrupted)
            } else {
                Ok(no_keys())
            },
            KeyInput::Char(c) => match key_of_char(c) {
                Some(kk) => Ok(one_key(kk)),
                None => Ok(no_keys()),
            },
            KeyInput::Other => Ok(no_keys()),
        },
    }
}

/// The key index a character maps to, if any.
fn key_index(c: char) -> (r: Option<usize>)
    ensures
        match r {
            Some(k) => key_of_char(c) == Some(k as int) && k < 16,
            None => key_of_char(c) is None,
        },
{
    if c == '1' {
        Some(0x0)
    } else if c == '2' {
        Some(0x1)
    } else if c == '3' {
        Some(0x2)
    } else if c == '4' {
        Some(0x3)
    } else if c == 'q' {
        Some(0x4)
    } else if c == 'w' {
        Some(0x5)
    } else if c == 'e' {
        Some(0x6)
    } else if c == 'r' {
        Some(0x7)
    } else if c == 'a' {
        Some(0x8)
    } else if c == 's' {
        Some(0x9)
    } else if c == 'd' {
        Some(0xa)
    } else if c == 'f' {
        Some(0xb)
    } else if c == 'z' {
        Some(0xc)
    } else if c == 'x' {
        Some(0xd)
    } else if c == 'c' {
        Some(0xe)
    } else if c == 'v' {
        Some(0xf)
    } else {
        None
    }
}

/// Turn one key event into the 16-entry pressed/not-pressed snapshot the
/// machine cycle takes; Ctrl-c instead reports an interrupt.
pub fn poll(event: Option<KeyInput>) -> (r: Result<[bool; 16], PollError>)
    ensures
        match (r, poll_spec(event)) {
            (Ok(ks), Ok(sq)) => ks@ == sq,
            (Err(e1), Err(e2)) => e1 == e2,
            _ => false,
        },
{
    let mut keystate: [bool; 16] = [false;16];
    proof {
        assert(keystate@ =~= no_keys());
    }
    match event {
        None => Ok(keystate),
        Some(k) => match k {
            KeyInput::Ctrl(c) => {
                if c == 'c' {
                    Err(PollError::Interrupted)
                } else {
                    Ok(keystate)
                }
            },
            KeyInput::Char(c) => {
                match key_index(c) {
                    Some(ii) => {
                        keystate[ii] = true;
                        proof {
                            assert(keystate@ =~= one_key(ii as int));
                        }
                        Ok(keystate)
                    },
                    None => Ok(keystate),
                }
            },
            KeyInput::Other => Ok(keystate),
        },
    }
}

} // verus!
