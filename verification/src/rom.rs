use vstd::prelude::*;
use crate::model::ROM_SIZE;

verus! {

/// Error returned when a program image does not fit in program memory.
#[derive(Clone, Copy, Debug, PartialEq, Eq, Structural)]
pub struct LoadError;

/// A program image: a flat byte stream whose byte 0 is loaded at the base of
/// the program area.  The machine keeps the image so that a reset can re-copy
/// it into memory.
#[derive(Clone, Debug)]
pub struct ROM {
    pub rom: Vec<u8>,
}

/// The byte sequence of an optional program image; empty when none.
pub open spec fn rom_sq(p: Option<ROM>) -> Seq<u8> {
    match p {
        Some(r) => r.rom@,
        None => Seq::empty(),
    }
}

impl ROM {
    /// True when the image fits in the program area of memory.
    pub open spec fn wf(self) -> bool {
        self.rom@.len() <= ROM_SIZE
    }

    /// Wrap a program image, refusing one longer than the program area.
    pub fn new_prog(p: &[u8]) -> (r: Result<ROM, LoadError>)
        ensures
            p@.len() <= ROM_SIZE ==> (r matches Ok(rm) && rm.rom@ == p@ && rm.wf()),
            p@.len() > ROM_SIZE ==> r == Err::<ROM, LoadError>(LoadError),
    {
        if p.len() <= ROM_SIZE {
            let mut buf: Vec<u8> = Vec::new();
            let mut ii: usize = 0;
            while ii < p.len()
                invariant
                    ii <= p@.len(),
                    buf@ == p@.subrange(0, ii as int),
                decreases p@.len() - ii,
            {
                buf.push(p[ii]);
                ii = ii + 1;
                proof {
                    assert(buf@ =~= p@.subrange(0, ii as int));
                }
            }
            proof {
                assert(buf@ =~= p@);
            }
            Ok(ROM { rom: buf })
        } else {
            Err(LoadError)
        }
    }
}

} // verus!
