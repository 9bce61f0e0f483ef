//! Descriptions of the displays and windows a recording can capture, and
//! lookups among them.
use vstd::prelude::*;

verus! {

/// What `list` enumerates.
#[derive(Clone, Copy, Debug, PartialEq, Eq, Structural)]
pub enum ListTarget {
    Displays,
    Windows,
}

/// A display as enumerated by the system; scale factor in thousandths.
#[derive(Clone, Debug)]
pub struct DisplayInfo {
    pub index: usize,
    pub width: u32,
    pub height: u32,
    pub x: i32,
    pub y: i32,
    pub is_main: bool,
    pub scale_factor: i64,
    pub display_string: String,
}

/// A window as enumerated by the system: id, title, owner and bounds
/// `(x, y, width, height)`.
#[derive(Debug)]
pub struct WindowInfo {
    pub id: u32,
    pub name: String,
    pub owner: String,
    pub bounds: (i32, i32, u32, u32),
}

/// A display chosen for capture.
#[derive(Clone, Debug)]
pub struct X11Display {
    pub index: usize,
    pub display_string: String,
    pub x: i32,
    pub y: i32,
    pub width: u32,
    pub height: u32,
}

/// A window chosen for capture.
#[derive(Clone, Debug)]
pub struct X11Window {
    pub id: u32,
    pub x: i32,
    pub y: i32,
    pub width: u32,
    pub height: u32,
    pub display_string: String,
}

impl X11Window {
    pub fn window_id(&self) -> (r: u32)
        ensures
            r == self.id,
    {
        self.id
    }
}

/// Index of the first display with index `display_index`, if any.
pub open spec fn display_position(ds: Seq<DisplayInfo>, display_index: usize) -> Option<int>
    decreases ds.len(),
{
    if ds.len() == 0 {
        None
    } else {
        match display_position(ds.drop_last(), display_index) {
            Some(i) => Some(i),
            None => if ds.last().index == display_index {
                Some(ds.len() - 1)
            } else {
                None
            },
        }
    }
}

/// Index of the first window with id `window_id`, if any.
pub open spec fn window_position(ws: Seq<WindowInfo>, window_id: u32) -> Option<int>
    decreases ws.len(),
{
    if ws.len() == 0 {
        None
    } else {
        match window_position(ws.drop_last(), window_id) {
            Some(i) => Some(i),
            None => if ws.last().id == window_id {
                Some(ws.len() - 1)
            } else {
                None
            },
        }
    }
}

/// The display with the given index among `displays`.
pub fn find_display(displays: &Vec<DisplayInfo>, display_index: usize) -> (r: Option<X11Display>)
    ensures
        display_position(displays@, display_index) is None <==> r is None,
        r matches Some(d) ==> {
            let src = displays@[display_position(displays@, display_index)->0];
            &&& d.index == src.index
            &&& d.x == src.x
            &&& d.y == src.y
            &&& d.width == src.width
            &&& d.height == src.height
        },
{
    let mut i: usize = 0;
    while i < displays.len()
        invariant
            i <= displays.len(),
            display_position(displays@.take(i as int), display_index) is None,
        decreases displays.len() - i,
    {
        assert(displays@.take(i + 1).drop_last() =~= displays@.take(i as int));
        if displays[i].index == display_index {
            proof {
                lemma_display_prefix(displays@, display_index, (i + 1) as int);
            }
            let d = &displays[i];
            return Some(
                X11Display {
                    index: d.index,
                    display_string: d.display_string.clone(),
                    x: d.x,
                    y: d.y,
                    width: d.width,
                    height: d.height,
                },
            );
        }
        i = i + 1;
    }
    assert(displays@.take(i as int) =~= displays@);
    None
}

pub proof fn lemma_display_prefix(ds: Seq<DisplayInfo>, display_index: usize, k: int)
    requires
        0 <= k <= ds.len(),
        display_position(ds.take(k), display_index) is Some,
    ensures
        display_position(ds, display_index) == display_position(ds.take(k), display_index),
    decreases ds.len() - k,
{
    if k < ds.len() {
        assert(ds.take(k + 1).drop_last() =~= ds.take(k));
        lemma_display_prefix(ds, display_index, k + 1);
    } else {
        assert(ds.take(k) =~= ds);
    }
}

pub proof fn lemma_window_prefix(ws: Seq<WindowInfo>, window_id: u32, k: int)
    requires
        0 <= k <= ws.len(),
        window_position(ws.take(k), window_id) is Some,
    ensures
        window_position(ws, window_id) == window_position(ws.take(k), window_id),
    decreases ws.len() - k,
{
    if k < ws.len() {
        assert(ws.take(k + 1).drop_last() =~= ws.take(k));
        lemma_window_prefix(ws, window_id, k + 1);
    } else {
        assert(ws.take(k) =~= ws);
    }
}

/// The window with the given id among `windows`, on X display `display_string`.
pub fn find_window(windows: &Vec<WindowInfo>, window_id: u32, display_string: String) -> (r: Option<X11Window>)
    ensures
        window_position(windows@, window_id) is None <==> r is None,
        r matches Some(w) ==> {
            let src = windows@[window_position(windows@, window_id)->0];
            &&& w.id == src.id
            &&& w.x == src.bounds.0
            &&& w.y == src.bounds.1
            &&& w.width == src.bounds.2
            &&& w.height == src.bounds.3
            &&& w.display_string@ == display_string@
        },
{
    let mut i: usize = 0;
    while i < windows.len()
        invariant
            i <= windows.len(),
            window_position(windows@.take(i as int), window_id) is None,
        decreases windows.len() - i,
    {
        assert(windows@.take(i + 1).drop_last() =~= windows@.take(i as int));
        if windows[i].id == window_id {
            proof {
                lemma_window_prefix(windows@, window_id, (i + 1) as int);
            }
            let w = &windows[i];
            return Some(
                X11Window {
                    id: w.id,
                    x: w.bounds.0,
                    y: w.bounds.1,
                    width: w.bounds.2,
                    height: w.bounds.3,
                    display_string,
                },
            );
        }
        i = i + 1;
    }
    assert(windows@.take(i as int) =~= windows@);
    None
}

} // verus!
