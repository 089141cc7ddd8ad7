//! Moving through the slides of a deck.

use vstd::prelude::*;

verus! {

/// A request to change the shown slide: from the arrow keys, the Prev and
/// Next buttons, or the slider.
#[derive(Clone, Copy, Debug, PartialEq, Eq, Structural)]
pub enum NavEvent {
    /// Show the following slide, if there is one.
    Next,
    /// Show the preceding slide, if there is one.
    Prev,
    /// Show the slide at this index.
    Jump(usize),
}

/// The slide shown after `event`, when slide `position` of a deck of `size`
/// slides is shown.
pub open spec fn step(position: nat, size: nat, event: NavEvent) -> nat {
    match event {
        NavEvent::Next => if position + 1 < size { position + 1 } else { position },
        NavEvent::Prev => if position > 0 { (position - 1) as nat } else { position },
        NavEvent::Jump(index) => index as nat,
    }
}

/// The slide shown after the same `event` came `times` times in a row.
pub open spec fn repeat_step(position: nat, size: nat, event: NavEvent, times: nat) -> nat
    decreases times,
{
    if times == 0 {
        position
    } else {
        step(repeat_step(position, size, event, (times - 1) as nat), size, event)
    }
}

/// For each of `size` slides, whether it is the one shown.
pub open spec fn active_flags_spec(position: nat, size: nat) -> Seq<bool> {
    Seq::new(size, |i: int| i == position)
}

/// A deck of slides and the index of the one that is shown.
#[derive(Debug)]
pub struct Deck {
    current: usize,
    count: usize,
}

impl Deck {
    #[verifier::type_invariant]
    spec fn well_formed(self) -> bool {
        self.count > 0
    }

    /// The index of the shown slide.
    pub closed spec fn position(self) -> nat {
        self.current as nat
    }

    /// The number of slides.
    pub closed spec fn size(self) -> nat {
        self.count as nat
    }

    /// A deck of `count` slides that shows the first one.
    pub fn new(count: usize) -> (deck: Deck)
        requires
            count > 0,
        ensures
            deck.position() == 0,
            deck.size() == count,
    {
        Deck { current: 0, count }
    }

    /// The index of the shown slide.
    pub fn current(&self) -> (r: usize)
        ensures
            r == self.position(),
    {
        self.current
    }

    /// The number of slides.
    pub fn count(&self) -> (r: usize)
        ensures
            r == self.size(),
            r > 0,
    {
        proof {
            use_type_invariant(self);
        }
        self.count
    }

    /// Handles one navigation request.
    pub fn apply(&mut self, event: NavEvent)
        ensures
            final(self).size() == old(self).size(),
            final(self).position() == step(old(self).position(), old(self).size(), event),
            event matches NavEvent::Jump(index) ==> final(self).position() == index,
            event is Next && old(self).position() + 1 < old(self).size() ==> final(self).position()
                == old(self).position() + 1,
            event is Next && old(self).position() + 1 >= old(self).size() ==> final(self).position()
                == old(self).position(),
            event is Prev && old(self).position() > 0 ==> final(self).position() + 1 == old(
                self,
            ).position(),
            event is Prev && old(self).position() == 0 ==> final(self).position() == 0,
    {
        proof {
            use_type_invariant(&*self);
        }
        match event {
            NavEvent::Next => {
                if self.current < self.count - 1 {
                    self.current = self.current + 1;
                }
            },
            NavEvent::Prev => {
                if self.current > 0 {
                    self.current = self.current - 1;
                }
            },
            NavEvent::Jump(index) => {
                self.current = index;
            },
        }
    }

    /// Whether the slide at `index` is the one shown.
    pub fn is_active(&self, index: usize) -> (r: bool)
        ensures
            r == (index == self.position()),
    {
        index == self.current
    }

    /// For each slide, in order, whether it is the one shown.
    pub fn active_flags(&self) -> (flags: Vec<bool>)
        ensures
            flags@ == active_flags_spec(self.position(), self.size()),
    {
        let mut flags: Vec<bool> = Vec::new();
        let mut i: usize = 0;
        while i < self.count
            invariant
                i <= self.count,
                flags@.len() == i,
                forall|j: int| 0 <= j < i ==> flags@[j] == (j == self.position()),
            decreases self.count - i,
        {
            flags.push(i == self.current);
            i = i + 1;
        }
        assert(flags@ =~= active_flags_spec(self.position(), self.size()));
        flags
    }
}

/// While a slide of the deck is shown, exactly one slide is active.
pub proof fn exactly_one_active(position: nat, size: nat)
    requires
        position < size,
    ensures
        active_flags_spec(position, size)[position as int],
        forall|i: int|
            0 <= i < size && i != position ==> !(#[trigger] active_flags_spec(position, size)[i]),
{
}

/// Going forward and then back returns to the same slide, unless the last
/// slide was shown.
pub proof fn next_then_prev(position: nat, size: nat)
    requires
        position + 1 < size,
    ensures
        step(step(position, size, NavEvent::Next), size, NavEvent::Prev) == position,
{
}

/// Going back and then forward returns to the same slide, unless the first
/// slide was shown.
pub proof fn prev_then_next(position: nat, size: nat)
    requires
        0 < position < size,
    ensures
        step(step(position, size, NavEvent::Prev), size, NavEvent::Next) == position,
{
}

/// From a slide of the deck, every request keeps a slide of the deck shown,
/// as long as a jump names a slide of the deck.
pub proof fn step_stays_in_deck(position: nat, size: nat, event: NavEvent)
    requires
        position < size,
        event matches NavEvent::Jump(index) ==> index < size,
    ensures
        step(position, size, event) < size,
{
}

/// Going forward `times` times from a slide of the deck stops at the last slide.
pub proof fn repeated_next(position: nat, size: nat, times: nat)
    requires
        position < size,
    ensures
        repeat_step(position, size, NavEvent::Next, times) == if position + times < size {
            position + times
        } else {
            (size - 1) as nat
        },
    decreases times,
{
    if times > 0 {
        repeated_next(position, size, (times - 1) as nat);
    }
}

/// Going back `times` times stops at the first slide.
pub proof fn repeated_prev(position: nat, size: nat, times: nat)
    ensures
        repeat_step(position, size, NavEvent::Prev, times) == if position >= times {
            (position - times) as nat
        } else {
            0
        },
    decreases times,
{
    if times > 0 {
        repeated_prev(position, size, (times - 1) as nat);
    }
}

/// A jump shows the slide it names, wherever the deck stood.
pub proof fn jump_shows_named_slide(position: nat, size: nat, index: usize)
    ensures
        step(position, size, NavEvent::Jump(index)) == index,
{
}

/// Forward from a slide of the deck shows the next slide; on the last slide,
/// or past it, it changes nothing.
pub proof fn next_moves_by_one(position: nat, size: nat)
    ensures
        position + 1 < size ==> step(position, size, NavEvent::Next) == position + 1,
        position + 1 >= size ==> step(position, size, NavEvent::Next) == position,
{
}

/// Back shows the preceding slide; on the first slide it changes nothing.
pub proof fn prev_moves_by_one(position: nat, size: nat)
    ensures
        position > 0 ==> step(position, size, NavEvent::Prev) + 1 == position,
        position == 0 ==> step(position, size, NavEvent::Prev) == 0,
{
}

} // verus!
