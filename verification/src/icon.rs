//! Icon resolution: mapping a window's class and owning process to an icon
//! identifier through a strict fallback chain.
//!
//! The chain tries, in order: an entry whose window-class hint equals the
//! class exactly; an entry whose lowercased name contains the lowercased
//! class; an entry whose launch command contains the owning process's name;
//! and finally the class string itself, which may already be a valid icon
//! name.  A failed process lookup is a non-match, never an error.

use crate::desktop::DesktopEntry;
use crate::text::{contains_chars, contains_seq, lower_of, str_eq, to_chars, to_lower};
use vstd::prelude::*;

verus! {

/// Whether entry `e`'s window-class hint equals `class` exactly.
pub open spec fn wm_class_hit(e: DesktopEntry, class: Seq<char>) -> bool {
    e.startup_wm_class matches Some(w) && w@ == class
}

/// Whether `class`, lowercased, occurs in `e`'s display name, lowercased.
pub open spec fn name_hit(e: DesktopEntry, class: Seq<char>) -> bool {
    contains_seq(lower_of(e.name@), lower_of(class))
}

/// Whether process name `pname` occurs in `e`'s launch command.
pub open spec fn exec_hit(e: DesktopEntry, pname: Seq<char>) -> bool {
    contains_seq(e.exec_cmd@, pname)
}

/// Icon of the first entry whose window-class hint matches exactly.
pub open spec fn first_wm_icon(es: Seq<DesktopEntry>, class: Seq<char>) -> Option<Seq<char>>
    decreases es.len(),
{
    if es.len() == 0 {
        None
    } else if wm_class_hit(es[0], class) {
        Some(es[0].icon@)
    } else {
        first_wm_icon(es.drop_first(), class)
    }
}

/// Icon of the first entry whose lowercased name contains the class.
pub open spec fn first_name_icon(es: Seq<DesktopEntry>, class: Seq<char>) -> Option<Seq<char>>
    decreases es.len(),
{
    if es.len() == 0 {
        None
    } else if name_hit(es[0], class) {
        Some(es[0].icon@)
    } else {
        first_name_icon(es.drop_first(), class)
    }
}

/// Icon of the first entry whose launch command contains the process name.
pub open spec fn first_exec_icon(es: Seq<DesktopEntry>, pname: Seq<char>) -> Option<Seq<char>>
    decreases es.len(),
{
    if es.len() == 0 {
        None
    } else if exec_hit(es[0], pname) {
        Some(es[0].icon@)
    } else {
        first_exec_icon(es.drop_first(), pname)
    }
}

/// The view of an optional borrowed string.
pub open spec fn opt_view(p: Option<&String>) -> Option<Seq<char>> {
    match p {
        Some(s) => Some(s@),
        None => None,
    }
}

/// The icon the fallback chain resolves for a window of class `class` whose
/// process name, when one could be read, is `pname`.
pub open spec fn resolve_icon_spec(
    es: Seq<DesktopEntry>,
    class: Seq<char>,
    pname: Option<Seq<char>>,
) -> Seq<char> {
    match first_wm_icon(es, class) {
        Some(icon) => icon,
        None => match first_name_icon(es, class) {
            Some(icon) => icon,
            None => {
                let from_exec = match pname {
                    Some(p) => first_exec_icon(es, p),
                    None => None,
                };
                match from_exec {
                    Some(icon) => icon,
                    None => class,
                }
            },
        },
    }
}

fn scan_wm(entries: &Vec<DesktopEntry>, class: &String) -> (r: Option<String>)
    ensures
        match r {
            Some(icon) => first_wm_icon(entries@, class@) == Some(icon@),
            None => first_wm_icon(entries@, class@) is None,
        },
{
    let n = entries.len();
    let mut i: usize = 0;
    proof {
        assert(entries@.skip(0) =~= entries@);
    }
    while i < n
        invariant
            n == entries@.len(),
            i <= n,
            first_wm_icon(entries@, class@) == first_wm_icon(entries@.skip(i as int), class@),
        decreases n - i,
    {
        proof {
            assert(entries@.skip(i as int)[0] == entries@[i as int]);
            assert(entries@.skip(i as int).drop_first() =~= entries@.skip(i + 1));
        }
        let e = &entries[i];
        let hit = match &e.startup_wm_class {
            Some(w) => str_eq(w.as_str(), class.as_str()),
            None => false,
        };
        if hit {
            return Some(e.icon.clone());
        }
        i = i + 1;
    }
    proof {
        assert(entries@.skip(n as int) =~= Seq::<DesktopEntry>::empty());
    }
    None
}

fn scan_name(entries: &Vec<DesktopEntry>, class: &String) -> (r: Option<String>)
    ensures
        match r {
            Some(icon) => first_name_icon(entries@, class@) == Some(icon@),
            None => first_name_icon(entries@, class@) is None,
        },
{
    let lower_class = to_lower(class.as_str());
    let needle = to_chars(lower_class.as_str());
    let n = entries.len();
    let mut i: usize = 0;
    proof {
        assert(entries@.skip(0) =~= entries@);
    }
    while i < n
        invariant
            n == entries@.len(),
            i <= n,
            needle@ == lower_of(class@),
            first_name_icon(entries@, class@) == first_name_icon(entries@.skip(i as int), class@),
        decreases n - i,
    {
        proof {
            assert(entries@.skip(i as int)[0] == entries@[i as int]);
            assert(entries@.skip(i as int).drop_first() =~= entries@.skip(i + 1));
        }
        let e = &entries[i];
        let lower_name = to_lower(e.name.as_str());
        let hay = to_chars(lower_name.as_str());
        if contains_chars(&hay, &needle) {
            return Some(e.icon.clone());
        }
        i = i + 1;
    }
    proof {
        assert(entries@.skip(n as int) =~= Seq::<DesktopEntry>::empty());
    }
    None
}

fn scan_exec(entries: &Vec<DesktopEntry>, pname: &String) -> (r: Option<String>)
    ensures
        match r {
            Some(icon) => first_exec_icon(entries@, pname@) == Some(icon@),
            None => first_exec_icon(entries@, pname@) is None,
        },
{
    let needle = to_chars(pname.as_str());
    let n = entries.len();
    let mut i: usize = 0;
    proof {
        assert(entries@.skip(0) =~= entries@);
    }
    while i < n
        invariant
            n == entries@.len(),
            i <= n,
            needle@ == pname@,
            first_exec_icon(entries@, pname@) == first_exec_icon(entries@.skip(i as int), pname@),
        decreases n - i,
    {
        proof {
            assert(entries@.skip(i as int)[0] == entries@[i as int]);
            assert(entries@.skip(i as int).drop_first() =~= entries@.skip(i + 1));
        }
        let e = &entries[i];
        let hay = to_chars(e.exec_cmd.as_str());
        if contains_chars(&hay, &needle) {
            return Some(e.icon.clone());
        }
        i = i + 1;
    }
    proof {
        assert(entries@.skip(n as int) =~= Seq::<DesktopEntry>::empty());
    }
    None
}

/// Resolves the icon for a window of class `class` through the fallback
/// chain, taking the process name (when the process table yielded one) as a
/// plain value.
pub fn resolve_icon(class: &String, pname: Option<&String>, entries: &Vec<DesktopEntry>) -> (r:
    String)
    ensures
        r@ == resolve_icon_spec(entries@, class@, opt_view(pname)),
{
    match scan_wm(entries, class) {
        Some(icon) => {
            return icon;
        },
        None => {},
    }
    match scan_name(entries, class) {
        Some(icon) => {
            return icon;
        },
        None => {},
    }
    match pname {
        Some(p) => {
            match scan_exec(entries, p) {
                Some(icon) => {
                    return icon;
                },
                None => {},
            }
        },
        None => {},
    }
    class.clone()
}

#[verifier::external_type_specification]
#[verifier::external_body]
pub struct ExProcess(psutil::process::Process);

/// Relies on psutil's `Process::new`: a handle for the process with that
/// pid, `None` when the lookup fails.  What comes back depends on the
/// machine's live process table, so nothing is promised of it.
#[verifier::external_body]
fn process_for_pid(pid: u32) -> (r: Option<psutil::process::Process>) {
    psutil::process::Process::new(pid).ok()
}

/// Relies on psutil's `Process::name`: the short process name read from the
/// process table, `None` when reading fails.  What comes back depends on
/// the machine, so nothing is promised of it.
#[verifier::external_body]
fn process_name(p: &psutil::process::Process) -> (r: Option<String>) {
    p.name().ok()
}

/// Resolves the icon for one window.  The first two chain steps consult the
/// catalog alone, so when either hits, the result is pinned; otherwise the
/// result is the chain's outcome for whatever process name the live process
/// table yielded.
pub fn find_icon(class: &String, pid: u32, entries: &Vec<DesktopEntry>) -> (r: String)
    ensures
        exists|pn: Option<Seq<char>>| r@ == resolve_icon_spec(entries@, class@, pn),
        first_wm_icon(entries@, class@) matches Some(icon) ==> r@ == icon,
        first_wm_icon(entries@, class@) is None ==> (first_name_icon(entries@, class@) matches Some(
            icon,
        ) ==> r@ == icon),
{
    match scan_wm(entries, class) {
        Some(icon) => {
            proof {
                assert(icon@ == resolve_icon_spec(entries@, class@, None));
            }
            return icon;
        },
        None => {},
    }
    match scan_name(entries, class) {
        Some(icon) => {
            proof {
                assert(icon@ == resolve_icon_spec(entries@, class@, None));
            }
            return icon;
        },
        None => {},
    }
    let pname = match process_for_pid(pid) {
        Some(p) => process_name(&p),
        None => None,
    };
    let pn_ref = pname.as_ref();
    let r = resolve_icon(class, pn_ref, entries);
    proof {
        assert(r@ == resolve_icon_spec(entries@, class@, opt_view(pn_ref)));
    }
    r
}

} // verus!
