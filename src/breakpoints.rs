use std::collections::HashMap;
use vstd::prelude::*;

verus! {

broadcast use vstd::std_specs::hash::group_hash_axioms;

/// The x86 `int3` opcode, planted in the lowest byte of an instruction word.
pub const TRAP_BYTE: u64 = 0xCC;

/// `word` with its lowest byte replaced by the trap opcode.
pub open spec fn spec_trap_word(word: u64) -> u64 {
    (word & !0xFFu64) | TRAP_BYTE
}

/// The instruction word to write so that executing the first byte at its
/// address traps; the other bytes are those of `original`.
pub fn trap_word(original: u64) -> (r: u64)
    ensures
        r == spec_trap_word(original),
        r & 0xFFu64 == TRAP_BYTE,
        r & !0xFFu64 == original & !0xFFu64,
{
    let r = (original & !0xFFu64) | TRAP_BYTE;
    assert(r & 0xFFu64 == 0xCCu64 && r & !0xFFu64 == original & !0xFFu64) by (bit_vector)
        requires
            r == (original & !0xFFu64) | 0xCCu64,
    ;
    r
}

/// The original instruction word of each address where a trap is planted.
#[derive(Debug)]
pub struct Breakpoints {
    saved: HashMap<u64, u64>,
}

impl View for Breakpoints {
    type V = Map<u64, u64>;

    closed spec fn view(&self) -> Map<u64, u64> {
        self.saved@
    }
}

impl Breakpoints {
    /// No trap planted.
    pub fn new() -> (r: Breakpoints)
        ensures
            r@ == Map::<u64, u64>::empty(),
    {
        Breakpoints { saved: HashMap::new() }
    }

    /// Records that a trap is planted at `address`, whose word read
    /// `original`, and returns the word to write there. An address already
    /// planted keeps the original saved first, so its word stays a trap.
    pub fn plant(&mut self, address: u64, original: u64) -> (word: u64)
        ensures
            final(self)@ == if old(self)@.contains_key(address) {
                old(self)@
            } else {
                old(self)@.insert(address, original)
            },
            final(self)@.contains_key(address),
            word == spec_trap_word(final(self)@[address]),
    {
        match self.saved.get(&address) {
            Some(saved) => trap_word(*saved),
            None => {
                self.saved.insert(address, original);
                trap_word(original)
            },
        }
    }

    /// Forgets the trap at `address` and returns the original word to write
    /// back, or `None` where no trap is planted.
    pub fn restore(&mut self, address: u64) -> (r: Option<u64>)
        ensures
            final(self)@ == old(self)@.remove(address),
            r == if old(self)@.contains_key(address) {
                Some(old(self)@[address])
            } else {
                None::<u64>
            },
    {
        self.saved.remove(&address)
    }

    /// Whether a trap is planted at `address`.
    pub fn is_planted(&self, address: u64) -> (r: bool)
        ensures
            r == self@.contains_key(address),
    {
        self.saved.contains_key(&address)
    }

    /// The original word saved for `address`.
    pub fn original(&self, address: u64) -> (r: Option<u64>)
        ensures
            r == if self@.contains_key(address) {
                Some(self@[address])
            } else {
                None::<u64>
            },
    {
        match self.saved.get(&address) {
            Some(w) => Some(*w),
            None => None,
        }
    }

    /// Forgets every trap, as when the traced process has exited.
    pub fn clear(&mut self)
        ensures
            final(self)@ == Map::<u64, u64>::empty(),
    {
        self.saved.clear();
    }
}

} // verus!
