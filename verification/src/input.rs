//! Turning keyboard and slider input into navigation requests.

use vstd::prelude::*;
use crate::decimal::{decimal, parse_usize, parse_usize_spec, parse_after_format};
use crate::navigation::NavEvent;

verus! {

/// The request that a key press makes: the right arrow goes forward, the left
/// arrow goes back, every other key does nothing.
pub open spec fn key_event_spec(key: Seq<char>) -> Option<NavEvent> {
    if key == "ArrowRight"@ {
        Some(NavEvent::Next)
    } else if key == "ArrowLeft"@ {
        Some(NavEvent::Prev)
    } else {
        None
    }
}

/// The request that a key press makes, by the key's name.
pub fn key_event(key: &str) -> (r: Option<NavEvent>)
    ensures
        r == key_event_spec(key@),
        key@ == "ArrowRight"@ ==> r == Some(NavEvent::Next),
        key@ == "ArrowLeft"@ ==> r == Some(NavEvent::Prev),
        key@ != "ArrowRight"@ && key@ != "ArrowLeft"@ ==> r is None,
{
    proof {
        only_arrow_keys_navigate(key@);
    }
    let pressed = key.to_owned();
    let right = "ArrowRight".to_owned();
    let left = "ArrowLeft".to_owned();
    if pressed == right {
        Some(NavEvent::Next)
    } else if pressed == left {
        Some(NavEvent::Prev)
    } else {
        None
    }
}

/// The request that the slider makes when it reports `value`: a jump to the
/// slide that the value names, or `None` where the value is no `usize`.
pub open spec fn slider_event_spec(value: Seq<char>) -> Option<NavEvent> {
    match parse_usize_spec(value) {
        Some(index) => Some(NavEvent::Jump(index)),
        None => None,
    }
}

/// The request that the slider makes when it reports `value`.
pub fn slider_event(value: &str) -> (r: Option<NavEvent>)
    ensures
        r == slider_event_spec(value@),
{
    match parse_usize(value) {
        Some(index) => Some(NavEvent::Jump(index)),
        None => None,
    }
}

/// A slider that reports the decimal text of an index asks for a jump to
/// that index.
pub proof fn slider_reports_index(index: usize)
    ensures
        slider_event_spec(decimal(index as nat)) == Some(NavEvent::Jump(index)),
{
    parse_after_format(index);
}

/// The right arrow goes forward, the left arrow goes back, and every other
/// key asks for nothing.
pub proof fn only_arrow_keys_navigate(key: Seq<char>)
    ensures
        key == "ArrowRight"@ ==> key_event_spec(key) == Some(NavEvent::Next),
        key == "ArrowLeft"@ ==> key_event_spec(key) == Some(NavEvent::Prev),
        key != "ArrowRight"@ && key != "ArrowLeft"@ ==> key_event_spec(key) is None,
{
    reveal_strlit("ArrowRight");
    reveal_strlit("ArrowLeft");
    assert("ArrowRight"@ != "ArrowLeft"@) by {
        assert("ArrowRight"@.len() != "ArrowLeft"@.len());
    }
}

/// The slider asks for a jump to exactly the number it reports, and for
/// nothing when it reports no number.
pub proof fn slider_jumps_to_parsed_value(value: Seq<char>)
    ensures
        parse_usize_spec(value) matches Some(n) ==> slider_event_spec(value) == Some(NavEvent::Jump(n)),
        parse_usize_spec(value) is None ==> slider_event_spec(value) is None,
{
}

} // verus!
