use carpool::config::Positive;
use carpool::window::{next_source, Action, Collection, Event, Source};

// Test items are their own key.
fn collection(max: usize) -> Collection<u32, u32> {
    Collection::new(Positive::new(max).expect("max is non-zero"))
}

fn item(c: &mut Collection<u32, u32>, i: u32) -> Action<u32> {
    c.on(Event::Item(i, i))
}

fn handed_off(action: Action<u32>) -> Vec<u32> {
    match action {
        Action::HandOff(batch) => batch,
        _ => panic!("the window closes"),
    }
}

// Close-by-size at the boundary: max = 3, so item 4 must not ride in the
// first batch - it opens a new window.
#[test]
fn size_closes_at_max_and_spills_to_next_window() {
    let mut c = collection(3);
    assert!(matches!(item(&mut c, 1), Action::Open));
    assert!(matches!(item(&mut c, 2), Action::Fill));
    assert_eq!(handed_off(item(&mut c, 3)), vec![1, 2, 3]);
    assert!(matches!(c.on(Event::HandedOff(true)), Action::Idle));

    assert!(matches!(item(&mut c, 4), Action::Open));
    assert_eq!(handed_off(c.on(Event::Timer)), vec![4]);
}

// Distinct-key count, not raw count: three copies of one input stay at one
// distinct key, so max = 2 never closes by size - the timer carries all three.
#[test]
fn duplicate_inputs_do_not_close_the_window_by_size() {
    let mut c = collection(2);
    assert!(matches!(item(&mut c, 7), Action::Open));
    assert!(matches!(item(&mut c, 7), Action::Fill));
    assert!(matches!(item(&mut c, 7), Action::Fill));
    assert_eq!(handed_off(c.on(Event::Timer)), vec![7, 7, 7]);
}

// Close-by-timer with a single underfilled item.
#[test]
fn single_input_closes_on_timer() {
    let mut c = collection(16);
    assert!(matches!(item(&mut c, 7), Action::Open));
    assert_eq!(handed_off(c.on(Event::Timer)), vec![7]);
}

// Close-by-timer with several underfilled items: all of them ride the one
// batch the timer closes.
#[test]
fn partial_window_closes_on_timer_with_all_items() {
    let mut c = collection(16);
    item(&mut c, 1);
    item(&mut c, 2);
    assert_eq!(handed_off(c.on(Event::Timer)), vec![1, 2]);
}

// Item 2 is waiting when the timer fires: the timer has priority, so the window closes with
// only [1] and item 2 falls into the next window - present exactly once across both batches.
#[test]
fn timer_wins_boundary_against_waiting_input() {
    let mut c = collection(16);
    item(&mut c, 1);
    assert_eq!(next_source(true), Source::Timer);
    assert_eq!(handed_off(c.on(Event::Timer)), vec![1]);
    assert!(matches!(c.on(Event::HandedOff(true)), Action::Idle));

    assert_eq!(next_source(false), Source::Inbound);
    assert!(matches!(item(&mut c, 2), Action::Open));
    assert_eq!(handed_off(c.on(Event::Timer)), vec![2]);
}

#[test]
fn a_window_of_one_closes_without_a_timer() {
    let mut c = collection(1);
    assert_eq!(handed_off(item(&mut c, 5)), vec![5]);
}

#[test]
fn a_closed_source_flushes_the_open_window_and_stops() {
    let mut c = collection(16);
    item(&mut c, 1);
    item(&mut c, 2);
    assert_eq!(handed_off(c.on(Event::SourceClosed)), vec![1, 2]);
    assert!(matches!(c.on(Event::HandedOff(true)), Action::Stop));
}

#[test]
fn a_closed_source_stops_an_idle_collection() {
    let mut c = collection(16);
    assert!(matches!(c.on(Event::SourceClosed), Action::Stop));
}

#[test]
fn a_gone_consumer_stops_the_collection() {
    let mut c = collection(1);
    assert_eq!(handed_off(item(&mut c, 1)), vec![1]);
    assert!(matches!(c.on(Event::HandedOff(false)), Action::Stop));
}

// Whatever closes them, the windows joined together are the arrivals in order.
#[test]
fn windows_slice_the_arrivals() {
    let mut c = collection(2);
    let mut windows: Vec<Vec<u32>> = Vec::new();
    for i in [1, 1, 2, 3, 3, 3, 4, 5] {
        if let Action::HandOff(batch) = item(&mut c, i) {
            windows.push(batch);
            c.on(Event::HandedOff(true));
        }
    }
    windows.push(handed_off(c.on(Event::SourceClosed)));
    assert_eq!(
        windows,
        vec![vec![1, 1, 2], vec![3, 3, 3, 4], vec![5]]
    );
    assert_eq!(windows.concat(), vec![1, 1, 2, 3, 3, 3, 4, 5]);
}

#[test]
fn a_count_of_zero_is_no_count() {
    assert_eq!(Positive::new(0), None);
    assert_eq!(Positive::new(3).map(|n| n.get()), Some(3));
}
