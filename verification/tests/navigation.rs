use cooking_with_wasm::navigation::{Deck, NavEvent};

#[test]
fn new_deck_shows_first_slide() {
    let deck = Deck::new(16);
    assert_eq!(deck.current(), 0);
    assert_eq!(deck.count(), 16);
}

#[test]
fn prev_on_first_slide_stays() {
    let mut deck = Deck::new(16);
    deck.apply(NavEvent::Prev);
    assert_eq!(deck.current(), 0);
}

#[test]
fn next_moves_forward() {
    let mut deck = Deck::new(16);
    deck.apply(NavEvent::Next);
    deck.apply(NavEvent::Next);
    assert_eq!(deck.current(), 2);
}

#[test]
fn next_on_last_slide_stays() {
    let mut deck = Deck::new(16);
    deck.apply(NavEvent::Jump(15));
    deck.apply(NavEvent::Next);
    assert_eq!(deck.current(), 15);
}

#[test]
fn next_then_prev_returns() {
    let mut deck = Deck::new(16);
    deck.apply(NavEvent::Jump(7));
    deck.apply(NavEvent::Next);
    deck.apply(NavEvent::Prev);
    assert_eq!(deck.current(), 7);
}

#[test]
fn prev_then_next_returns() {
    let mut deck = Deck::new(16);
    deck.apply(NavEvent::Jump(15));
    deck.apply(NavEvent::Prev);
    deck.apply(NavEvent::Next);
    assert_eq!(deck.current(), 15);
}

#[test]
fn repeated_next_stops_at_last_slide() {
    let mut deck = Deck::new(16);
    for _ in 0..40 {
        deck.apply(NavEvent::Next);
    }
    assert_eq!(deck.current(), 15);
}

#[test]
fn repeated_prev_stops_at_first_slide() {
    let mut deck = Deck::new(16);
    deck.apply(NavEvent::Jump(5));
    for _ in 0..3 {
        deck.apply(NavEvent::Prev);
    }
    assert_eq!(deck.current(), 2);
    for _ in 0..10 {
        deck.apply(NavEvent::Prev);
    }
    assert_eq!(deck.current(), 0);
}

#[test]
fn single_slide_deck_never_moves() {
    let mut deck = Deck::new(1);
    deck.apply(NavEvent::Next);
    assert_eq!(deck.current(), 0);
    deck.apply(NavEvent::Prev);
    assert_eq!(deck.current(), 0);
}

#[test]
fn jump_sets_the_index() {
    let mut deck = Deck::new(16);
    deck.apply(NavEvent::Jump(9));
    assert_eq!(deck.current(), 9);
    assert_eq!(deck.count(), 16);
}

#[test]
fn jump_past_the_end_is_kept_and_prev_walks_back() {
    let mut deck = Deck::new(4);
    deck.apply(NavEvent::Jump(10));
    assert_eq!(deck.current(), 10);
    deck.apply(NavEvent::Next);
    assert_eq!(deck.current(), 10);
    deck.apply(NavEvent::Prev);
    assert_eq!(deck.current(), 9);
}

#[test]
fn exactly_the_current_slide_is_active() {
    let mut deck = Deck::new(5);
    deck.apply(NavEvent::Jump(3));
    let flags = deck.active_flags();
    assert_eq!(flags, vec![false, false, false, true, false]);
    assert_eq!(flags.iter().filter(|f| **f).count(), 1);
    assert!(deck.is_active(3));
    assert!(!deck.is_active(2));
}

#[test]
fn no_slide_active_after_jump_past_the_end() {
    let mut deck = Deck::new(3);
    deck.apply(NavEvent::Jump(7));
    assert_eq!(deck.active_flags(), vec![false, false, false]);
}
