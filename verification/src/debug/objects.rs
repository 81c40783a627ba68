//! Tooltips for the object under the cursor.
//!
//! The tool keeps track of two keys that are held down and of the current
//! selection. It draws nothing and reads no input itself: its caller puts the
//! questions to the input layer that `tooltip_query` and
//! `debug_tooltip_query` name, hands the answers to `event`, and draws what
//! `draw` asks for.

use vstd::prelude::*;
use crate::helpers::ID;

verus! {

/// The question to put to the input layer about a key.
#[derive(Clone, Copy, Debug, PartialEq, Eq, Structural)]
pub enum KeyQuery {
    /// Was the key pressed in this event?
    Pressed,
    /// Was the key released in this event?
    Released,
}

/// What a caller is to draw.
#[derive(Clone, Copy, Debug, PartialEq, Eq, Structural)]
pub struct Tooltips {
    /// Draw the tooltip of the selected object.
    pub object: bool,
    /// Draw the cursor's position, if it is on the map.
    pub cursor: bool,
}

pub struct ObjectDebugger {
    tooltip_key_held: bool,
    debug_tooltip_key_held: bool,
    selected: Option<ID>,
}

impl ObjectDebugger {
    pub closed spec fn tooltip_key_held(&self) -> bool {
        self.tooltip_key_held
    }

    pub closed spec fn debug_tooltip_key_held(&self) -> bool {
        self.debug_tooltip_key_held
    }

    pub closed spec fn selection(&self) -> Option<ID> {
        self.selected
    }

    /// The state that a key is in after an event: a key that was held stays
    /// held unless the answer says it was released; one that was not is held
    /// if the answer says it was pressed.
    pub open spec fn held_after(held: bool, answer: bool) -> bool {
        if held {
            !answer
        } else {
            answer
        }
    }

    pub fn new() -> (d: ObjectDebugger)
        ensures
            !d.tooltip_key_held(),
            !d.debug_tooltip_key_held(),
            d.selection().is_none(),
    {
        ObjectDebugger { tooltip_key_held: false, debug_tooltip_key_held: false, selected: None }
    }

    /// The question about the key for tooltips.
    pub fn tooltip_query(&self) -> (q: KeyQuery)
        ensures
            q == (if self.tooltip_key_held() {
                KeyQuery::Released
            } else {
                KeyQuery::Pressed
            }),
    {
        if self.tooltip_key_held {
            KeyQuery::Released
        } else {
            KeyQuery::Pressed
        }
    }

    /// The question about the key for the cursor's position.
    pub fn debug_tooltip_query(&self) -> (q: KeyQuery)
        ensures
            q == (if self.debug_tooltip_key_held() {
                KeyQuery::Released
            } else {
                KeyQuery::Pressed
            }),
    {
        if self.debug_tooltip_key_held {
            KeyQuery::Released
        } else {
            KeyQuery::Pressed
        }
    }

    /// Takes one event: the current selection, the answers to the two
    /// questions, and whether the user asked to debug the selected object
    /// (a question that is put only while something is selected). Returns
    /// whether the selected object is to be dumped.
    pub fn event(
        &mut self,
        selection: Option<ID>,
        tooltip_answer: bool,
        debug_tooltip_answer: bool,
        debug_requested: bool,
    ) -> (dump: bool)
        ensures
            final(self).selection() == selection,
            final(self).tooltip_key_held() == Self::held_after(
                old(self).tooltip_key_held(),
                tooltip_answer,
            ),
            final(self).debug_tooltip_key_held() == Self::held_after(
                old(self).debug_tooltip_key_held(),
                debug_tooltip_answer,
            ),
            dump == (selection.is_some() && debug_requested),
    {
        self.selected = selection;
        if self.tooltip_key_held {
            self.tooltip_key_held = !tooltip_answer;
        } else {
            self.tooltip_key_held = tooltip_answer;
        }
        if self.debug_tooltip_key_held {
            self.debug_tooltip_key_held = !debug_tooltip_answer;
        } else {
            self.debug_tooltip_key_held = debug_tooltip_answer;
        }
        self.selected.is_some() && debug_requested
    }

    /// The selected object.
    pub fn selected(&self) -> (id: &Option<ID>)
        ensures
            *id == self.selection(),
    {
        &self.selected
    }

    /// What to draw: the selected object's tooltip while its key is held and
    /// something is selected; the cursor's position while the other key is
    /// held.
    pub fn draw(&self) -> (t: Tooltips)
        ensures
            t.object == (self.tooltip_key_held() && self.selection().is_some()),
            t.cursor == self.debug_tooltip_key_held(),
    {
        Tooltips {
            object: self.tooltip_key_held && self.selected.is_some(),
            cursor: self.debug_tooltip_key_held,
        }
    }
}

} // verus!
