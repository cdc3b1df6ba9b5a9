//! A strip of tabs that can be dragged: what a click on one means, where a dragged one goes, and how
//! a long label is cut.
use vstd::prelude::*;
use vstd::string::*;

verus! {

/// What happened on one tab in a frame.
#[derive(Clone, Copy)]
pub struct TabInput {
    /// Its cross was clicked.
    pub cross: bool,
    pub click: bool,
    pub middle: bool,
    pub drag_started: bool,
}

/// What a strip of tabs asks for after a frame.
pub struct TabsOut {
    pub activate: Option<usize>,
    pub close: Option<usize>,
    /// A tab that takes the place of its neighbour: from, to.
    pub reorder: Option<(usize, usize)>,
    /// The tab that is dragged now.
    pub drag: Option<usize>,
}

/// The last tab for which something holds.
pub open spec fn last_where(tabs: Seq<TabInput>, f: spec_fn(TabInput) -> bool) -> Option<int>
    decreases tabs.len(),
{
    if tabs.len() == 0 {
        None
    } else if f(tabs.last()) {
        Some(tabs.len() - 1)
    } else {
        last_where(tabs.drop_last(), f)
    }
}

/// Whether a tab is to be closed: its cross, or the middle button where the tab itself was not
/// clicked.
pub open spec fn closes(t: TabInput) -> bool {
    t.cross || (!t.click && t.middle)
}

/// Whether a tab is to be shown.
pub open spec fn activates(t: TabInput) -> bool {
    !t.cross && t.click
}

/// Where the dragged tab goes: past its left neighbour once it is left of its middle, else past its
/// right neighbour once it is right of its middle.
pub open spec fn drop_target(from: int, n: int, left_of_prev: bool, right_of_next: bool) -> int {
    if from > 0 && from - 1 < n && left_of_prev {
        from - 1
    } else if from + 1 < n && right_of_next {
        from + 1
    } else {
        from
    }
}

/// A position as a number.
pub open spec fn pos_of(i: Option<usize>) -> Option<int> {
    match i {
        Some(i) => Some(i as int),
        None => None,
    }
}

/// Finds out what a strip of tabs asks for. `down` says whether the button is held, `at` how the
/// dragged tab lies to the middles of its neighbours where the pointer is known.
pub fn draggable_tabs(
    drag: Option<usize>,
    tabs: &Vec<TabInput>,
    down: bool,
    at: Option<(bool, bool)>,
) -> (r: TabsOut)
    ensures
        pos_of(r.activate) == last_where(tabs@, |t| activates(t)),
        pos_of(r.close) == last_where(tabs@, |t| closes(t)),
        ({
            let held = match last_where(tabs@, |t: TabInput| t.drag_started) {
                Some(i) => Some(i),
                None => pos_of(drag),
            };
            match held {
                None => r.drag is None && r.reorder is None,
                Some(from) => if !down {
                    r.drag is None && r.reorder is None
                } else {
                    let to = match at {
                        Some((left, right)) => drop_target(from, tabs@.len() as int, left, right),
                        None => from,
                    };
                    &&& pos_of(r.drag) == Some(to)
                    &&& if to == from {
                        r.reorder is None
                    } else {
                        r.reorder is Some && (r.reorder->0).0 == from && (r.reorder->0).1 == to
                    }
                },
            }
        }),
{
    let mut activate: Option<usize> = None;
    let mut close: Option<usize> = None;
    let mut held: Option<usize> = drag;
    let ghost all = tabs@;
    let mut i: usize = 0;
    assert(all.take(0) =~= Seq::empty());
    while i < tabs.len()
        invariant
            all == tabs@,
            i <= all.len(),
            pos_of(activate) == last_where(all.take(i as int), |t| activates(t)),
            pos_of(close) == last_where(all.take(i as int), |t| closes(t)),
            pos_of(held) == (match last_where(all.take(i as int), |t: TabInput| t.drag_started) {
                Some(i) => Some(i),
                None => pos_of(drag),
            }),
        decreases all.len() - i,
    {
        proof {
            assert(all.take(i + 1).drop_last() =~= all.take(i as int));
            assert(all.take(i + 1).last() == all[i as int]);
        }
        let t = tabs[i];
        if t.cross {
            close = Some(i);
        } else if t.click {
            activate = Some(i);
        } else if t.middle {
            close = Some(i);
        }
        if t.drag_started {
            held = Some(i);
        }
        i = i + 1;
    }
    assert(all.take(i as int) =~= all);
    let mut out = TabsOut { activate, close, reorder: None, drag: held };
    match held {
        Some(from) => {
            if down {
                match at {
                    Some((left, right)) => {
                        let mut to: usize = from;
                        if from > 0 && from - 1 < tabs.len() && left {
                            to = from - 1;
                        } else if tabs.len() > 0 && from < tabs.len() - 1 && right {
                            to = from + 1;
                        }
                        if to != from {
                            out.reorder = Some((from, to));
                            out.drag = Some(to);
                        }
                    },
                    None => {},
                }
            } else {
                out.drag = None;
            }
        },
        None => {},
    }
    out
}

/// A dragged tab only ever trades places with a neighbour that exists.
pub proof fn dragged_tab_trades_with_a_neighbour(from: int, n: int, left: bool, right: bool)
    requires
        0 <= from < n,
    ensures
        0 <= drop_target(from, n, left, right) < n,
        drop_target(from, n, left, right) - from == 0 || drop_target(from, n, left, right) - from
            == 1 || from - drop_target(from, n, left, right) == 1,
{
}

/// The shortest that a label is cut to, in characters.
pub const MIN_LABEL: usize = 4;

/// A label that was cut.
pub open spec fn cut(text: Seq<char>, keep: int) -> Seq<char> {
    text.take(keep) + "…"@
}

/// Cuts a label to `keep` characters.
pub fn cut_label(text: &str, keep: usize) -> (r: String)
    requires
        keep <= text@.len(),
    ensures
        r@ == cut(text@, keep as int),
{
    assert(text@.subrange(0, keep as int) =~= text@.take(keep as int));
    let mut s = text.substring_char(0, keep).to_owned();
    s.append("…");
    s
}

/// What to try next with a label of `len` characters that was cut to `keep`: nothing once it fits
/// or cannot be shorter, else two characters less.
pub fn next_cut(keep: usize, len: usize, fits: bool) -> (r: Option<usize>)
    requires
        MIN_LABEL <= keep <= len,
    ensures
        match r {
            Some(k) => {
                &&& !fits && keep > MIN_LABEL
                &&& k == (if keep - 2 < MIN_LABEL {
                    MIN_LABEL as int
                } else {
                    keep - 2
                })
                &&& MIN_LABEL <= k < keep
            },
            None => fits || keep == MIN_LABEL,
        },
{
    if fits || keep <= MIN_LABEL {
        return None;
    }
    let k: usize = keep - 2;
    if k < MIN_LABEL {
        Some(MIN_LABEL)
    } else {
        Some(k)
    }
}

} // verus!
