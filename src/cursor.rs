use vstd::prelude::*;

verus! {

/// A caret position counted in characters.
pub struct Cursor {
    pub index: usize,
}

impl Cursor {
    pub fn new() -> (r: Self)
        ensures
            r.index == 0,
    {
        Self { index: 0 }
    }

    /// Moves one step right unless the cursor already stands at `max`.
    pub fn move_right(&mut self, max: usize)
        ensures
            final(self).index == if old(self).index < max {
                old(self).index + 1
            } else {
                old(self).index as int
            },
    {
        if self.index < max {
            self.index += 1;
        }
    }

    /// Moves one step left unless the cursor already stands at 0.
    pub fn move_left(&mut self)
        ensures
            final(self).index == if old(self).index > 0 {
                old(self).index - 1
            } else {
                0
            },
    {
        if self.index > 0 {
            self.index -= 1;
        }
    }
}

} // verus!
