//! Scroll indicator text: which arrow hint a scrollable list shows.

use vstd::prelude::*;

verus! {

/// How a scroll hint is rendered: bare arrows or a labeled form.
#[derive(Debug, Clone, Copy, PartialEq, Eq, Structural)]
pub enum ScrollIndicatorStyle {
    Arrows,
    Labeled,
}

/// The hint for a scrollable area: arrows for the reachable directions,
/// `None` when nothing scrolls.
pub fn scroll_indicator_text(
    can_scroll_up: bool,
    can_scroll_down: bool,
    style: ScrollIndicatorStyle,
) -> (r: Option<&'static str>)
    ensures
        r is Some <==> (can_scroll_up || can_scroll_down),
        can_scroll_up && can_scroll_down && style == ScrollIndicatorStyle::Arrows ==> r->0@
            == "▲▼"@,
        can_scroll_up && !can_scroll_down && style == ScrollIndicatorStyle::Arrows ==> r->0@
            == "▲"@,
        !can_scroll_up && can_scroll_down && style == ScrollIndicatorStyle::Arrows ==> r->0@
            == "▼"@,
        can_scroll_up && can_scroll_down && style == ScrollIndicatorStyle::Labeled ==> r->0@
            == " ▲▼ scroll "@,
        can_scroll_up && !can_scroll_down && style == ScrollIndicatorStyle::Labeled ==> r->0@
            == " ▲ scroll "@,
        !can_scroll_up && can_scroll_down && style == ScrollIndicatorStyle::Labeled ==> r->0@
            == " ▼ scroll "@,
{
    match (can_scroll_up, can_scroll_down, style) {
        (true, true, ScrollIndicatorStyle::Arrows) => Some("▲▼"),
        (true, false, ScrollIndicatorStyle::Arrows) => Some("▲"),
        (false, true, ScrollIndicatorStyle::Arrows) => Some("▼"),
        (true, true, ScrollIndicatorStyle::Labeled) => Some(" ▲▼ scroll "),
        (true, false, ScrollIndicatorStyle::Labeled) => Some(" ▲ scroll "),
        (false, true, ScrollIndicatorStyle::Labeled) => Some(" ▼ scroll "),
        (false, false, _) => None,
    }
}

} // verus!
