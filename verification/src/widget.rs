use vstd::prelude::*;
use crate::rect::Rect;

verus! {

/// Identifies a widget; messages name the widget they come from.
#[derive(Debug, Clone, Copy, PartialEq, Eq, Structural)]
pub struct WidgetId(pub usize);

/// What a widget asks of its owner after an event or message: nothing,
/// or to be drawn again.
#[derive(Debug, Clone, Copy, PartialEq, Eq, Structural)]
pub struct ActionFlags {
    pub bits: u32,
}

impl ActionFlags {
    /// No action.
    pub fn empty() -> (r: Self)
        ensures
            r.bits == 0,
    {
        ActionFlags { bits: 0 }
    }

    /// The widget must be drawn again.
    pub fn dirty() -> (r: Self)
        ensures
            r.bits == 1,
    {
        ActionFlags { bits: 1 }
    }

    /// Both sets of actions.
    pub fn union(self, other: Self) -> (r: Self)
        ensures
            r.bits == self.bits | other.bits,
    {
        ActionFlags { bits: self.bits | other.bits }
    }

    /// The widget must be drawn again.
    pub fn is_dirty(&self) -> (r: bool)
        ensures
            r == (self.bits & 1 != 0),
    {
        self.bits & 1 != 0
    }
}

/// The state every widget has: where it is drawn, its identity and
/// whether it must be drawn again.
#[derive(Debug, Clone, Copy, PartialEq, Eq, Structural)]
pub struct WidgetData {
    pub rect: Rect,
    pub widget_id: WidgetId,
    pub dirty: bool,
}

impl WidgetData {
    /// A widget with identity `widget_id`, an empty rectangle, to be drawn.
    pub open spec fn new_spec(widget_id: WidgetId) -> WidgetData {
        WidgetData { rect: Rect { row: 0, column: 0, width: 0, height: 0 }, widget_id, dirty: true }
    }

    /// A widget with identity `widget_id`, an empty rectangle, to be drawn.
    pub fn new(widget_id: WidgetId) -> (r: Self)
        ensures
            r == WidgetData::new_spec(widget_id),
    {
        WidgetData { rect: Rect::default(), widget_id, dirty: true }
    }
}

} // verus!
