//! The window snapshot: records reported by the compositor, numbered once at
//! snapshot time so a ranked result can be correlated back to its window.

use vstd::prelude::*;

verus! {

/// One open window, as the compositor reported it.
#[derive(Clone, Debug)]
pub struct WindowData {
    /// Opaque stable identifier used for activation.
    pub address: String,
    /// Compositor-reported application class.
    pub class: String,
    /// Current window title.
    pub title: String,
    /// Owning process id.
    pub pid: u32,
}

/// One open window of the snapshot, with its locally assigned sequence
/// number.
#[derive(Clone, Debug)]
pub struct WindowRecord {
    /// Opaque stable identifier used for activation.
    pub address: String,
    /// Compositor-reported application class.
    pub class: String,
    /// Current window title.
    pub title: String,
    /// Owning process id.
    pub pid: u32,
    /// Sequence number, assigned at snapshot time in report order.
    pub id: u64,
}

/// Numbers a snapshot: window `k` keeps its fields and gets id `k`.
pub fn number_windows(ws: &Vec<WindowData>) -> (r: Vec<WindowRecord>)
    ensures
        r@.len() == ws@.len(),
        forall|k: int|
            0 <= k < r@.len() ==> {
                &&& (#[trigger] r@[k]).id == k as u64
                &&& r@[k].address@ == ws@[k].address@
                &&& r@[k].class@ == ws@[k].class@
                &&& r@[k].title@ == ws@[k].title@
                &&& r@[k].pid == ws@[k].pid
            },
{
    let mut r: Vec<WindowRecord> = Vec::new();
    let mut i: usize = 0;
    while i < ws.len()
        invariant
            i <= ws@.len(),
            r@.len() == i,
            forall|k: int|
                0 <= k < i ==> {
                    &&& (#[trigger] r@[k]).id == k as u64
                    &&& r@[k].address@ == ws@[k].address@
                    &&& r@[k].class@ == ws@[k].class@
                    &&& r@[k].title@ == ws@[k].title@
                    &&& r@[k].pid == ws@[k].pid
                },
        decreases ws@.len() - i,
    {
        let w = &ws[i];
        r.push(
            WindowRecord {
                address: w.address.clone(),
                class: w.class.clone(),
                title: w.title.clone(),
                pid: w.pid,
                id: i as u64,
            },
        );
        i = i + 1;
    }
    r
}

/// Finds the position of the window carrying `id`, scanning in snapshot
/// order; `None` when no window carries it.
pub fn find_by_id(ws: &Vec<WindowRecord>, id: u64) -> (r: Option<usize>)
    ensures
        match r {
            Some(i) => i < ws@.len() && ws@[i as int].id == id && forall|j: int|
                0 <= j < i ==> ws@[j].id != id,
            None => forall|j: int| 0 <= j < ws@.len() ==> ws@[j].id != id,
        },
{
    let mut i: usize = 0;
    while i < ws.len()
        invariant
            i <= ws@.len(),
            forall|j: int| 0 <= j < i ==> ws@[j].id != id,
        decreases ws@.len() - i,
    {
        if ws[i].id == id {
            return Some(i);
        }
        i = i + 1;
    }
    None
}

} // verus!
