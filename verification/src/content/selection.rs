use vstd::prelude::*;

verus! {

/// The position of the highlighted entry of a list.
#[derive(Clone, Copy, Debug, PartialEq, Eq, Structural)]
pub struct SelectedIndex {
    pub index: usize,
}

impl View for SelectedIndex {
    type V = usize;

    open spec fn view(&self) -> usize {
        self.index
    }
}

impl SelectedIndex {
    /// A selection on the first entry.
    pub fn new() -> (r: Self)
        ensures
            r@ == 0,
    {
        SelectedIndex { index: 0 }
    }

    pub fn selected_index(&self) -> (r: usize)
        ensures
            r == self@,
    {
        self.index
    }

    pub fn select(&mut self, index: usize)
        ensures
            final(self)@ == index,
    {
        self.index = index;
    }
}

impl Default for SelectedIndex {
    fn default() -> (r: Self)
        ensures
            r@ == 0,
    {
        SelectedIndex::new()
    }
}

/// Where one step down a list of `size` entries leads from `sel`.
pub open spec fn stepped_down(sel: usize, size: usize) -> usize {
    if sel + 1 < size {
        (sel + 1) as usize
    } else {
        sel
    }
}

/// Where one step up a list leads from `sel`.
pub open spec fn stepped_up(sel: usize) -> usize {
    if sel > 0 {
        (sel - 1) as usize
    } else {
        sel
    }
}

/// Where `n` steps down a list of `size` entries lead from `sel`.
pub open spec fn stepped_down_n(sel: usize, n: nat, size: usize) -> usize {
    if sel + 1 < size {
        if sel + n < size {
            (sel + n) as usize
        } else {
            (size - 1) as usize
        }
    } else {
        sel
    }
}

/// Where `n` steps up a list lead from `sel`.
pub open spec fn stepped_up_n(sel: usize, n: nat) -> usize {
    if n <= sel {
        (sel - n) as usize
    } else {
        0
    }
}

/// Moves the selection one entry down unless it is on the last of `num_items`
/// entries; says whether it moved.
pub fn selection_increment(sel: &mut SelectedIndex, num_items: usize) -> (moved: bool)
    ensures
        final(sel)@ == stepped_down(old(sel)@, num_items),
        moved == (old(sel)@ + 1 < num_items),
{
    let i = sel.selected_index();
    if num_items > 0 && i < num_items - 1 {
        sel.select(i + 1);
        true
    } else {
        false
    }
}

/// Moves the selection one entry up unless it is on the first; says whether it moved.
pub fn selection_decrement(sel: &mut SelectedIndex) -> (moved: bool)
    ensures
        final(sel)@ == stepped_up(old(sel)@),
        moved == (old(sel)@ > 0),
{
    let i = sel.selected_index();
    if i > 0 {
        sel.select(i - 1);
        true
    } else {
        false
    }
}

/// Moves the selection `n` times one entry down a list of `num_items` entries.
pub fn selection_increment_n(sel: &mut SelectedIndex, n: usize, num_items: usize)
    ensures
        final(sel)@ == stepped_down_n(old(sel)@, n as nat, num_items),
{
    let mut k: usize = 0;
    while k < n
        invariant
            k <= n,
            sel@ == stepped_down_n(old(sel)@, k as nat, num_items),
        decreases n - k,
    {
        selection_increment(sel, num_items);
        k = k + 1;
    }
}

/// Moves the selection `n` times one entry up.
pub fn selection_decrement_n(sel: &mut SelectedIndex, n: usize)
    ensures
        final(sel)@ == stepped_up_n(old(sel)@, n as nat),
{
    let mut k: usize = 0;
    while k < n
        invariant
            k <= n,
            sel@ == stepped_up_n(old(sel)@, k as nat),
        decreases n - k,
    {
        selection_decrement(sel);
        k = k + 1;
    }
}

} // verus!
