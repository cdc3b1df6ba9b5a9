//! The image viewer: its tabs, how to move between them, and what it calls a file.
use vstd::prelude::*;
use vstd::string::*;

use crate::editor::active_after_removal;
use crate::proto::{tr, tr_of, Lang};
use crate::text::{chars_of, last_index, last_index_of};

verus! {

/// An image that is open.
pub struct ImageTab {
    /// The title of the session, as shown.
    pub server: String,
    /// The session.
    pub uid: u64,
    pub path: String,
    /// The file as it is.
    pub data: Vec<u8>,
}

/// The images that are open.
pub struct ImageView {
    pub tabs: Vec<ImageTab>,
    pub active: usize,
    /// Whether the window is to come to the front.
    pub focus: bool,
    /// The tab that was shown last.
    pub shown: usize,
    /// The tab that is dragged.
    pub tab_drag: Option<usize>,
}

/// What lies behind the last slash of a path.
pub open spec fn file_name_of(path: Seq<char>) -> Seq<char> {
    match last_index_of(path, '/') {
        Some(i) => path.skip(i + 1),
        None => path,
    }
}

/// What lies behind the last slash of a path.
pub fn file_name(path: &str) -> (r: String)
    ensures
        r@ == file_name_of(path@),
{
    let v = chars_of(path);
    let n: usize = v.len();
    match last_index(&v, '/') {
        Some(i) => {
            assert(path@.subrange(i + 1, path@.len() as int) =~= path@.skip(i + 1));
            path.substring_char(i + 1, n).to_owned()
        },
        None => path.to_owned(),
    }
}

/// The title of the window.
pub open spec fn image_title(view: ImageView, lang: Lang) -> Seq<char> {
    if view.active < view.tabs@.len() {
        let t = view.tabs@[view.active as int];
        tr_of(lang, "iShell 看图 — "@, "iShell Image — "@) + t.server@ + "·"@ + file_name_of(t.path@)
    } else {
        tr_of(lang, "iShell 看图"@, "iShell Image"@)
    }
}

/// What was done in the window in one frame.
pub struct ImageClicks {
    /// The key that goes to the next tab, and the one that goes back.
    pub tab_next: bool,
    pub tab_prev: bool,
    /// A tab that traded places: from, to.
    pub reorder: Option<(usize, usize)>,
    pub activate: Option<usize>,
    /// The arrow keys.
    pub right: bool,
    pub left: bool,
    pub close_tab: Option<usize>,
    /// The window was closed.
    pub close_all: bool,
}

/// The tab after a step forwards or back: the first after the last, and the other way round.
pub open spec fn stepped(active: usize, n: nat, forwards: bool) -> usize {
    if forwards {
        if active + 1 == n {
            0
        } else {
            (active + 1) as usize
        }
    } else {
        if active == 0 {
            (n - 1) as usize
        } else {
            (active - 1) as usize
        }
    }
}

/// The tab that is shown after two tabs traded places.
pub open spec fn swapped_active(active: usize, from: usize, to: usize) -> usize {
    if active == from {
        to
    } else if active == to {
        from
    } else {
        active
    }
}

/// Two tabs that traded places.
pub open spec fn swapped(tabs: Seq<ImageTab>, from: int, to: int) -> Seq<ImageTab> {
    tabs.update(from, tabs[to]).update(to, tabs[from])
}

/// The viewer after the keys that step through the tabs.
pub open spec fn after_keys(active: usize, n: nat, c: ImageClicks) -> usize {
    if n > 1 && c.tab_prev {
        stepped(active, n, false)
    } else if n > 1 && c.tab_next {
        stepped(active, n, true)
    } else {
        active
    }
}

/// The tab that a frame shows, as far as keys, dragging and clicks go.
pub open spec fn shown_tab(active: usize, n: nat, c: ImageClicks) -> usize {
    let a = after_keys(active, n, c);
    match c.reorder {
        Some((from, to)) => if from < n && to < n {
            swapped_active(a, from, to)
        } else {
            a
        },
        None => a,
    }
}

/// The tab that is shown after a frame, before any is closed.
pub open spec fn next_tab(active: usize, n: nat, c: ImageClicks) -> usize {
    let a = match c.activate {
        Some(i) => i,
        None => shown_tab(active, n, c),
    };
    if c.right == c.left {
        a
    } else {
        stepped(a, n, c.right)
    }
}

/// The tabs after a frame, before any is closed.
pub open spec fn tabs_after(tabs: Seq<ImageTab>, c: ImageClicks) -> Seq<ImageTab> {
    match c.reorder {
        Some((from, to)) => if from < tabs.len() && to < tabs.len() {
            swapped(tabs, from as int, to as int)
        } else {
            tabs
        },
        None => tabs,
    }
}

/// The tab that is shown where `n` are left: the same place, or the last.
pub open spec fn within(active: usize, n: nat) -> usize {
    if active >= n && n > 0 {
        (n - 1) as usize
    } else {
        active
    }
}

/// What one frame of the viewer does: nothing where no image is open. Says whether memory is to be
/// given back.
pub open spec fn image_frame_ok(before: ImageView, after: ImageView, c: ImageClicks, trim: bool)
    -> bool {
    let n = before.tabs@.len();
    if n == 0 {
        after == before && !trim
    } else {
        let start = if before.active >= n {
            (n - 1) as usize
        } else {
            before.active
        };
        let tabs = tabs_after(before.tabs@, c);
        let active = next_tab(start, n, c);
        &&& trim == (c.close_tab is Some || c.close_all)
        &&& !after.focus
        &&& after.shown == shown_tab(start, n, c)
        &&& after.tab_drag == before.tab_drag
        &&& if c.close_all {
            after.tabs@.len() == 0 && after.active == 0
        } else {
            match c.close_tab {
                Some(i) => if i < n {
                    &&& after.tabs@ == tabs.remove(i as int)
                    &&& after.active == within(active, (n - 1) as nat)
                } else {
                    after.tabs@ == tabs && after.active == active
                },
                None => after.tabs@ == tabs && after.active == active,
            }
        }
    }
}

impl ImageView {
    /// No images.
    pub fn new() -> (r: ImageView)
        ensures
            r.tabs@.len() == 0 && r.active == 0 && !r.focus && r.shown == 0 && r.tab_drag is None,
    {
        ImageView { tabs: Vec::new(), active: 0, focus: false, shown: 0, tab_drag: None }
    }

    /// Takes a tab out; says whether it was there.
    pub fn remove_tab_at(&mut self, index: usize) -> (r: bool)
        ensures
            r == (index < old(self).tabs@.len()),
            if r {
                &&& final(self).tabs@ == old(self).tabs@.remove(index as int)
                &&& *final(self) == (ImageView {
                    tabs: final(self).tabs,
                    active: active_after_removal(
                        old(self).active,
                        index as int,
                        old(self).tabs@.len() as int,
                    ),
                    ..*old(self)
                })
            } else {
                *final(self) == *old(self)
            },
    {
        if index >= self.tabs.len() {
            return false;
        }
        let _ = self.tabs.remove(index);
        if index < self.active {
            self.active = self.active - 1;
        } else if self.active >= self.tabs.len() && self.tabs.len() > 0 {
            self.active = self.tabs.len() - 1;
        }
        true
    }

    /// The title of the window.
    pub fn title(&self, lang: Lang) -> (r: String)
        ensures
            r@ == image_title(*self, lang),
    {
        if self.active < self.tabs.len() {
            let t = &self.tabs[self.active];
            let mut s = tr(lang, "iShell 看图 — ", "iShell Image — ").to_owned();
            s.append(t.server.as_str());
            s.append("·");
            let name = file_name(t.path.as_str());
            s.append(name.as_str());
            s
        } else {
            tr(lang, "iShell 看图", "iShell Image").to_owned()
        }
    }

    fn step(&mut self, forwards: bool)
        requires
            old(self).active < old(self).tabs@.len(),
        ensures
            *final(self) == (ImageView {
                active: stepped(old(self).active, old(self).tabs@.len(), forwards),
                ..*old(self)
            }),
            final(self).active < final(self).tabs@.len(),
    {
        let n: usize = self.tabs.len();
        let a: usize = self.active;
        self.active = if forwards {
            if a + 1 == n {
                0
            } else {
                a + 1
            }
        } else {
            if a == 0 {
                n - 1
            } else {
                a - 1
            }
        };
    }

    fn swap_tabs(&mut self, from: usize, to: usize)
        requires
            from < old(self).tabs@.len(),
            to < old(self).tabs@.len(),
        ensures
            final(self).tabs@ == swapped(old(self).tabs@, from as int, to as int),
            *final(self) == (ImageView {
                tabs: final(self).tabs,
                active: swapped_active(old(self).active, from, to),
                ..*old(self)
            }),
    {
        if from != to {
            let (lo, hi): (usize, usize) = if from < to {
                (from, to)
            } else {
                (to, from)
            };
            let right = self.tabs.remove(hi);
            let left = self.tabs.remove(lo);
            self.tabs.insert(lo, right);
            self.tabs.insert(hi, left);
        }
        assert(self.tabs@ =~= swapped(old(self).tabs@, from as int, to as int));
        if self.active == from {
            self.active = to;
        } else if self.active == to {
            self.active = from;
        }
    }

    fn move_about(&mut self, c: &ImageClicks)
        requires
            old(self).active < old(self).tabs@.len(),
            c.activate is Some ==> c.activate->0 < old(self).tabs@.len(),
        ensures
            final(self).tabs@ == tabs_after(old(self).tabs@, *c),
            final(self).active == next_tab(old(self).active, old(self).tabs@.len(), *c),
            final(self).shown == shown_tab(old(self).active, old(self).tabs@.len(), *c),
            final(self).focus == old(self).focus,
            final(self).tab_drag == old(self).tab_drag,
            final(self).active < final(self).tabs@.len(),
            final(self).tabs@.len() == old(self).tabs@.len(),
    {
        let n: usize = self.tabs.len();
        if n > 1 {
            if c.tab_prev {
                self.step(false);
            } else if c.tab_next {
                self.step(true);
            }
        }
        match c.reorder {
            Some((from, to)) => {
                if from < n && to < n {
                    self.swap_tabs(from, to);
                }
            },
            None => {},
        }
        self.shown = self.active;
        match c.activate {
            Some(i) => {
                self.active = i;
            },
            None => {},
        }
        if c.right != c.left {
            self.step(c.right);
        }
    }

    /// One frame of the viewer.
    pub fn image_window(&mut self, c: &ImageClicks) -> (trim: bool)
        requires
            c.activate is Some ==> c.activate->0 < old(self).tabs@.len(),
        ensures
            image_frame_ok(*old(self), *final(self), *c, trim),
    {
        let n: usize = self.tabs.len();
        if n == 0 {
            return false;
        }
        if self.active >= n {
            self.active = n - 1;
        }
        self.focus = false;
        self.move_about(c);
        match c.close_tab {
            Some(i) => {
                if i < self.tabs.len() {
                    let _ = self.tabs.remove(i);
                }
                if self.active >= self.tabs.len() && self.tabs.len() > 0 {
                    self.active = self.tabs.len() - 1;
                }
            },
            None => {},
        }
        if c.close_all {
            self.tabs = Vec::new();
            self.active = 0;
        }
        c.close_tab.is_some() || c.close_all
    }
}

/// A step back undoes a step forwards, and the other way round.
pub proof fn stepping_back_undoes_a_step(active: usize, n: nat)
    requires
        active < n <= usize::MAX,
    ensures
        stepped(stepped(active, n, true), n, false) == active,
        stepped(stepped(active, n, false), n, true) == active,
        stepped(active, n, true) < n,
        stepped(active, n, false) < n,
{
}

/// What is said after an image was saved to a file, or was not.
pub fn save_message(result: Result<&str, &str>, lang: Lang) -> (r: String)
    ensures
        r@ == (match result {
            Ok(path) => tr_of(lang, "已保存到 "@, "Saved to "@) + path@,
            Err(e) => tr_of(lang, "保存失败："@, "Save failed: "@) + e@,
        }),
{
    match result {
        Ok(path) => {
            let mut s = tr(lang, "已保存到 ", "Saved to ").to_owned();
            s.append(path);
            s
        },
        Err(e) => {
            let mut s = tr(lang, "保存失败：", "Save failed: ").to_owned();
            s.append(e);
            s
        },
    }
}

} // verus!
