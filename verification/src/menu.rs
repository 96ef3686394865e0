//! Which part of a menu is shown: the items that match a search, the rows around
//! the selected one, and where the selection goes.

use vstd::prelude::*;

verus! {

/// How many rows a menu shows where nothing is hidden above.
pub const ROWS: usize = 10;

/// The part of a list that is shown.
#[derive(Clone, Copy, Debug, PartialEq, Eq, Structural)]
pub struct Window {
    /// The first item shown.
    pub start: usize,
    /// The item behind the last one shown.
    pub end: usize,
    /// Whether items are hidden above, so that a row says so.
    pub show_up: bool,
    /// Whether items are hidden below, so that a row says so.
    pub show_down: bool,
    /// The row of the selected item, counting the row that says that items are
    /// hidden above.
    pub selection: usize,
}

/// The lesser of two numbers.
pub open spec fn least(a: int, b: int) -> int {
    if a <= b {
        a
    } else {
        b
    }
}

/// The part of `total` items that is shown where item `selected` is selected.
///
/// Up to the tenth item the list is shown from its start, ten items of it. From
/// the eleventh on a row tells of the items above, and nine items are shown, of
/// which the selected one is the last.
pub open spec fn window_of(selected: int, total: int) -> Window {
    let show_up = selected >= ROWS;
    let start = if show_up {
        selected - (ROWS - 2)
    } else {
        0
    };
    let end = if show_up {
        least(start + (ROWS - 1), total)
    } else {
        least(ROWS as int, total)
    };
    Window {
        start: start as usize,
        end: end as usize,
        show_up,
        show_down: end < total,
        selection: if show_up {
            (ROWS - 1) as usize
        } else {
            selected as usize
        },
    }
}

/// The shown part lies within the list, has at most ten items, and holds the
/// selected item, on the row that the window names.
pub proof fn lemma_window_shows_selection(selected: int, total: int)
    requires
        0 <= selected < total <= usize::MAX,
    ensures
        ({
            let window = window_of(selected, total);
            &&& window.start <= selected < window.end <= total
            &&& window.end - window.start <= ROWS
            &&& window.show_up ==> window.end - window.start < ROWS
            &&& window.show_up == (window.start > 0)
            &&& window.show_down == (window.end < total)
            &&& window.selection == selected - window.start + if window.show_up {
                1int
            } else {
                0int
            }
        }),
{
}

/// The part of a list of `total` items that is shown where item `selected` is
/// selected.
pub fn window(selected: usize, total: usize) -> (res: Window)
    requires
        selected < total || selected == 0,
    ensures
        res == window_of(selected as int, total as int),
{
    if selected >= ROWS {
        let start: usize = selected - (ROWS - 2);
        let end: usize = if start + (ROWS - 1) <= total {
            start + (ROWS - 1)
        } else {
            total
        };
        Window { start, end, show_up: true, show_down: end < total, selection: ROWS - 1 }
    } else {
        let end: usize = if ROWS <= total {
            ROWS
        } else {
            total
        };
        Window { start: 0, end, show_up: false, show_down: end < total, selection: selected }
    }
}

/// The selection one item up, where there is one.
pub fn step_up(selected: usize) -> (res: usize)
    ensures
        res == if selected > 0 {
            selected - 1
        } else {
            0
        },
{
    if selected > 0 {
        selected - 1
    } else {
        selected
    }
}

/// The selection one item down, where there is one among `total` items.
pub fn step_down(selected: usize, total: usize) -> (res: usize)
    ensures
        res == if selected + 1 < total {
            selected + 1
        } else {
            selected as int
        },
{
    if total > 0 && selected < total - 1 {
        selected + 1
    } else {
        selected
    }
}

/// The selection brought back into a list of `total` items: the last item where it
/// was behind it, the first where the list is empty.
pub fn clamp_selection(selected: usize, total: usize) -> (res: usize)
    ensures
        res == if total == 0 {
            0
        } else if selected >= total {
            total - 1
        } else {
            selected as int
        },
        res < total || res == 0,
{
    if total == 0 {
        0
    } else if selected >= total {
        total - 1
    } else {
        selected
    }
}

/// Whether `query` occurs in `text`: some stretch of `text` is `query`.
pub open spec fn occurs_in(query: Seq<char>, text: Seq<char>) -> bool {
    exists|at: int|
        0 <= at <= text.len() - query.len() && #[trigger] text.subrange(
            at,
            at + query.len(),
        ) == query
}

/// `str::contains` with a string as the pattern: whether the pattern matches a
/// stretch of the text.
#[verifier::external_body]
fn holds(text: &String, query: &String) -> (res: bool)
    ensures
        res == occurs_in(query@, text@),
{
    text.contains(query)
}

/// Which of the items hold the query, in order.
pub open spec fn matching(items: Seq<String>, query: Seq<char>) -> Seq<usize>
    decreases items.len(),
{
    if items.len() == 0 {
        Seq::empty()
    } else {
        let front = matching(items.drop_last(), query);
        if occurs_in(query, items.last()@) {
            front.push((items.len() - 1) as usize)
        } else {
            front
        }
    }
}

/// The places of the items that a menu lists: every item where nothing is searched
/// for, else those that hold the query.
pub fn displayed(items: &Vec<String>, query: Option<&String>) -> (res: Vec<usize>)
    ensures
        match query {
            Some(query) => res@ == matching(items@, query@),
            None => res@ == Seq::new(items@.len(), |i: int| i as usize),
        },
{
    let mut shown: Vec<usize> = Vec::new();
    let mut i: usize = 0;
    assert(items@.take(0) =~= Seq::<String>::empty());
    while i < items.len()
        invariant
            i <= items.len(),
            match query {
                Some(query) => shown@ == matching(items@.take(i as int), query@),
                None => shown@ == Seq::new(i as nat, |i: int| i as usize),
            },
        decreases items.len() - i,
    {
        proof {
            assert(items@.take(i as int + 1).drop_last() =~= items@.take(i as int));
            assert(items@.take(i as int + 1).last() == items@[i as int]);
        }
        match query {
            Some(query) => {
                if holds(&items[i], query) {
                    shown.push(i);
                }
            },
            None => {
                shown.push(i);
                assert(shown@ =~= Seq::new((i + 1) as nat, |i: int| i as usize));
            },
        }
        i += 1;
    }
    assert(items@.take(items@.len() as int) =~= items@);
    shown
}

} // verus!
