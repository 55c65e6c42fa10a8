//! The open layouts, one per tab, and which one is shown.

use vstd::prelude::*;

use crate::labels::{decimal, decimal_string};

verus! {

/// The open layouts and the position of the one shown.
pub struct LayoutTabs<L> {
    pub items: Vec<L>,
    pub active_index: usize,
}

/// The layout shown, where the position names one.
pub open spec fn active_of<L>(t: LayoutTabs<L>) -> Option<L> {
    if t.active_index < t.items@.len() {
        Some(t.items@[t.active_index as int])
    } else {
        None
    }
}

impl<L> LayoutTabs<L> {
    /// No layout open.
    pub fn new() -> (t: Self)
        ensures
            t.items@.len() == 0,
            t.active_index == 0,
    {
        LayoutTabs { items: Vec::new(), active_index: 0 }
    }

    /// The layout shown.
    pub fn active(&self) -> (r: Option<&L>)
        ensures
            match r {
                Some(l) => active_of(*self) == Some(*l),
                None => active_of(*self) is None,
            },
    {
        if self.active_index < self.items.len() {
            Some(&self.items[self.active_index])
        } else {
            None
        }
    }

    /// Whether no layout is open.
    pub fn is_empty(&self) -> (r: bool)
        ensures
            r == (self.items@.len() == 0),
    {
        self.items.len() == 0
    }

    /// Opens `layout` in a new tab after the others and shows it.
    pub fn push_and_select(&mut self, layout: L)
        ensures
            final(self).items@ == old(self).items@.push(layout),
            final(self).active_index == old(self).items@.len(),
            active_of(*final(self)) == Some(layout),
    {
        self.items.push(layout);
        self.active_index = self.items.len() - 1;
    }

    /// Shows `layout` in place of the one shown, or in a first tab where none is open.
    pub fn set_single(&mut self, layout: L)
        requires
            old(self).items@.len() == 0 || old(self).active_index < old(self).items@.len(),
        ensures
            old(self).items@.len() == 0 ==> final(self).items@ == seq![layout] && final(self).active_index == 0,
            old(self).items@.len() > 0 ==> final(self).items@ == old(self).items@.update(
                old(self).active_index as int,
                layout,
            ) && final(self).active_index == old(self).active_index,
            active_of(*final(self)) == Some(layout),
    {
        if self.items.len() == 0 {
            self.items.push(layout);
            self.active_index = 0;
            assert(self.items@ =~= seq![layout]);
        } else {
            self.items.set(self.active_index, layout);
        }
    }
}

/// The name an animation without one is listed by: its position counted from one.
pub open spec fn default_anim_name(idx: nat) -> Seq<char> {
    "Animation "@ + decimal(idx + 1)
}

/// Names every unnamed animation by its position, counted from one, and keeps the
/// other names.
pub fn fill_default_anim_names(names: &mut Vec<String>)
    ensures
        final(names)@.len() == old(names)@.len(),
        forall|i: int| 0 <= i < old(names)@.len() ==> (#[trigger] final(names)@[i])@ == (if old(names)@[i]@.len() == 0 {
            default_anim_name(i as nat)
        } else {
            old(names)@[i]@
        }),
{
    let ghost orig = names@;
    let mut i: usize = 0;
    while i < names.len()
        invariant
            i <= names@.len(),
            names@.len() == orig.len(),
            forall|j: int| i <= j < orig.len() ==> #[trigger] names@[j] == orig[j],
            forall|j: int| 0 <= j < i ==> (#[trigger] names@[j])@ == (if orig[j]@.len() == 0 {
                default_anim_name(j as nat)
            } else {
                orig[j]@
            }),
        decreases names.len() - i,
    {
        if names[i].as_str().unicode_len() == 0 {
            let mut s = String::from_str("Animation ");
            let d = decimal_string(i + 1);
            s.append(d.as_str());
            names.set(i, s);
        }
        i = i + 1;
    }
}

} // verus!
