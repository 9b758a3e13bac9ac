//! The windows of the second emulator and the one in front.

use vstd::prelude::*;
use super::database::Database;
use super::window::{can_open_window, first_min_layout, Window, WindowStyle};

verus! {

pub struct WindowMgr {
    current_idx: usize,
    windows: Vec<Window>,
}

/// The position of the first window named `name`.
pub open spec fn first_window_named(ws: Seq<Window>, name: Seq<char>) -> Option<int>
    decreases ws.len(),
{
    if ws.len() == 0 {
        None
    } else {
        match first_window_named(ws.drop_last(), name) {
            Some(i) => Some(i),
            None => if ws.last().name@ == name { Some(ws.len() - 1) } else { None },
        }
    }
}

impl WindowMgr {
    /// The position of the window in front.
    pub closed spec fn current(&self) -> usize {
        self.current_idx
    }

    /// The open windows.
    pub closed spec fn window_list(&self) -> Seq<Window> {
        self.windows@
    }

    /// No windows; position 0 in front.
    pub fn new() -> (r: Self)
        ensures
            r.current() == 0,
            r.window_list() == Seq::<Window>::empty(),
    {
        WindowMgr { current_idx: 0, windows: Vec::new() }
    }

    /// Brings the first window named `name` to the front; without such a
    /// window the front window stays.
    pub fn select_window_by_name(&mut self, name: &str)
        ensures
            final(self).window_list() == old(self).window_list(),
            final(self).current() == match first_window_named(old(self).window_list(), name@) {
                Some(i) => i as usize,
                None => old(self).current(),
            },
    {
        let target = name.to_owned();
        let mut i: usize = 0;
        let mut found: Option<usize> = None;
        while i < self.windows.len()
            invariant
                i <= self.windows@.len(),
                target@ == name@,
                match found {
                    Some(k) => first_window_named(self.windows@.subrange(0, i as int), name@) == Some(k as int),
                    None => first_window_named(self.windows@.subrange(0, i as int), name@) is None,
                },
            decreases self.windows.len() - i,
        {
            proof {
                assert(self.windows@.subrange(0, i as int + 1).drop_last() =~= self.windows@.subrange(0, i as int));
            }
            if found.is_none() && self.windows[i].name == target {
                found = Some(i);
            }
            i = i + 1;
        }
        proof {
            assert(self.windows@.subrange(0, i as int) =~= self.windows@);
        }
        match found {
            Some(k) => {
                self.current_idx = k;
            },
            None => {},
        }
    }

    /// The window in front.
    pub fn current_window(&self) -> (r: &Window)
        requires
            self.current() < self.window_list().len(),
        ensures
            *r == self.window_list()[self.current() as int],
    {
        &self.windows[self.current_idx]
    }

    /// Opens a window on `db`, numbered by the count of windows open before.
    pub fn add_window(&mut self, file_: String, name: String, db: &Database)
        requires
            can_open_window(db),
            old(self).window_list().len() < u32::MAX,
        ensures
            final(self).current() == old(self).current(),
            final(self).window_list().len() == old(self).window_list().len() + 1,
            final(self).window_list().drop_last() == old(self).window_list(),
            ({
                let w = final(self).window_list().last();
                &&& w.id == old(self).window_list().len()
                &&& w.file == file_
                &&& w.name == name
                &&& *w.layout == *db.layouts@[first_min_layout(db.layouts@)]
                &&& w.style == WindowStyle::Document
                &&& w.found_sets@.len() == 0
            }),
    {
        let w = Window::new(self.windows.len() as u32, file_, name, db);
        self.windows.push(w);
        proof {
            assert(self.windows@.drop_last() =~= old(self).windows@);
        }
    }
}

} // verus!
