use vstd::prelude::*;

use crate::scene::{Event, MouseButton};

verus! {

/// What the pointer looked like at the last frame: which buttons were down and
/// which cell it was over.
pub struct EventTracker {
    pub left_down: bool,
    pub right_down: bool,
    pub middle_down: bool,
    pub position: (i64, i64),
}

/// The event that a button's change between two frames gives, if any.
pub open spec fn button_events(button: MouseButton, is_down: bool, was_down: bool, position: (
    i64,
    i64,
)) -> Seq<Event> {
    if is_down && !was_down {
        seq![Event::MouseDown { button, x: position.0, y: position.1 }]
    } else if !is_down && was_down {
        seq![Event::MouseUp { button, x: position.0, y: position.1 }]
    } else {
        Seq::empty()
    }
}

/// The move event that a change of cell gives, if any.
pub open spec fn move_events(old_position: (i64, i64), position: (i64, i64)) -> Seq<Event> {
    if position != old_position {
        seq![Event::MouseMoved { x: position.0, y: position.1 }]
    } else {
        Seq::empty()
    }
}

fn button_event(button: MouseButton, is_down: bool, was_down: bool, position: (i64, i64)) -> (r:
    Option<Event>)
    ensures
        match r {
            Some(e) => button_events(button, is_down, was_down, position) == seq![e],
            None => button_events(button, is_down, was_down, position) == Seq::<Event>::empty(),
        },
{
    if is_down && !was_down {
        Some(Event::MouseDown { button, x: position.0, y: position.1 })
    } else if !is_down && was_down {
        Some(Event::MouseUp { button, x: position.0, y: position.1 })
    } else {
        None
    }
}

impl EventTracker {
    /// No button down, the pointer over cell `(0, 0)`.
    pub fn new() -> (r: Self)
        ensures
            !r.left_down && !r.right_down && !r.middle_down,
            r.position == (0i64, 0i64),
    {
        EventTracker { left_down: false, right_down: false, middle_down: false, position: (0, 0) }
    }

    /// The events of one frame, from the buttons that are down now and the cell
    /// under the pointer: a press or a release for each button that changed, in
    /// the order left, right, middle, then a move if the cell changed.
    pub fn generate_events(&mut self, position: (i64, i64), left: bool, right: bool, middle: bool) -> (r:
        Vec<Event>)
        ensures
            r@ == button_events(MouseButton::Left, left, old(self).left_down, position)
                + button_events(MouseButton::Right, right, old(self).right_down, position)
                + button_events(MouseButton::Middle, middle, old(self).middle_down, position)
                + move_events(old(self).position, position),
            final(self).left_down == left,
            final(self).right_down == right,
            final(self).middle_down == middle,
            final(self).position == position,
    {
        let mut events: Vec<Event> = Vec::new();
        let ghost e0 = events@;
        if let Some(e) = button_event(MouseButton::Left, left, self.left_down, position) {
            events.push(e);
        }
        assert(events@ =~= e0 + button_events(MouseButton::Left, left, old(self).left_down, position));
        let ghost e1 = events@;
        if let Some(e) = button_event(MouseButton::Right, right, self.right_down, position) {
            events.push(e);
        }
        assert(events@ =~= e1 + button_events(MouseButton::Right, right, old(self).right_down, position));
        let ghost e2 = events@;
        if let Some(e) = button_event(MouseButton::Middle, middle, self.middle_down, position) {
            events.push(e);
        }
        assert(events@ =~= e2 + button_events(MouseButton::Middle, middle, old(self).middle_down, position));
        let ghost e3 = events@;
        if position.0 != self.position.0 || position.1 != self.position.1 {
            events.push(Event::MouseMoved { x: position.0, y: position.1 });
        }
        assert(events@ =~= e3 + move_events(old(self).position, position));
        self.left_down = left;
        self.right_down = right;
        self.middle_down = middle;
        self.position = position;
        events
    }
}

} // verus!
