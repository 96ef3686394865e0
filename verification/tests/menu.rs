use factory_calc::menu::{clamp_selection, displayed, step_down, step_up, window, Window, ROWS};

#[test]
fn short_list_is_shown_whole() {
    assert_eq!(
        window(2, 5),
        Window { start: 0, end: 5, show_up: false, show_down: false, selection: 2 }
    );
    assert_eq!(
        window(0, 0),
        Window { start: 0, end: 0, show_up: false, show_down: false, selection: 0 }
    );
    assert_eq!(ROWS, 10);
}

#[test]
fn long_list_is_shown_from_its_start_up_to_the_tenth_item() {
    assert_eq!(
        window(9, 20),
        Window { start: 0, end: 10, show_up: false, show_down: true, selection: 9 }
    );
    assert_eq!(
        window(0, 10),
        Window { start: 0, end: 10, show_up: false, show_down: false, selection: 0 }
    );
}

#[test]
fn from_the_eleventh_item_on_the_selection_is_the_last_row() {
    assert_eq!(
        window(10, 20),
        Window { start: 2, end: 11, show_up: true, show_down: true, selection: 9 }
    );
    assert_eq!(
        window(19, 20),
        Window { start: 11, end: 20, show_up: true, show_down: false, selection: 9 }
    );
    assert_eq!(
        window(usize::MAX - 1, usize::MAX),
        Window {
            start: usize::MAX - 9,
            end: usize::MAX,
            show_up: true,
            show_down: false,
            selection: 9
        }
    );
}

#[test]
fn selection_is_always_shown() {
    for total in 1..40usize {
        for selected in 0..total {
            let w = window(selected, total);
            assert!(w.start <= selected && selected < w.end && w.end <= total);
            assert!(w.end - w.start <= 10);
            assert_eq!(w.selection, selected - w.start + w.show_up as usize);
            assert_eq!(w.show_up, w.start > 0);
            assert_eq!(w.show_down, w.end < total);
        }
    }
}

#[test]
fn selection_steps_within_the_list() {
    assert_eq!(step_up(0), 0);
    assert_eq!(step_up(3), 2);
    assert_eq!(step_down(3, 5), 4);
    assert_eq!(step_down(4, 5), 4);
    assert_eq!(step_down(0, 0), 0);
    assert_eq!(step_down(usize::MAX, usize::MAX), usize::MAX);
    assert_eq!(clamp_selection(7, 5), 4);
    assert_eq!(clamp_selection(4, 5), 4);
    assert_eq!(clamp_selection(3, 0), 0);
}

#[test]
fn search_shows_the_items_that_hold_the_query() {
    let items = vec![
        "iron-plate".to_string(),
        "copper-plate".to_string(),
        "iron-gear".to_string(),
        "".to_string(),
    ];
    assert_eq!(displayed(&items, None), vec![0, 1, 2, 3]);
    assert_eq!(displayed(&items, Some(&"iron".to_string())), vec![0, 2]);
    assert_eq!(displayed(&items, Some(&"plate".to_string())), vec![0, 1]);
    assert_eq!(displayed(&items, Some(&"".to_string())), vec![0, 1, 2, 3]);
    assert_eq!(displayed(&items, Some(&"Iron".to_string())), vec![]);
    assert_eq!(displayed(&items, Some(&"iron-plate-x".to_string())), vec![]);
    assert_eq!(displayed(&vec![], Some(&"a".to_string())), vec![]);
}
