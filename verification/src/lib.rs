//! Resolves open compositor windows to desktop-application icons and ranks
//! them against a user-typed query.
//!
//! The crate holds the logic of the plugin: parsing desktop-entry files into a
//! catalog, stripping launch-command field codes, fuzzy-ranking a window
//! snapshot against a query, and resolving an icon for each surviving window
//! through a layered fallback chain.  Reading files, spawning the compositor
//! query process and talking to the plugin host are left to the surrounding
//! program, which hands this crate plain values.

pub mod desktop;
pub mod icon;
pub mod rank;
pub mod text;
pub mod window;

use crate::desktop::DesktopEntry;
use crate::icon::{find_icon, resolve_icon_spec};
use crate::rank::{
    candidates, lemma_candidates_elems, min_int, rank_windows, sorted_desc, ScoredCandidate,
};
use crate::window::WindowRecord;
use vstd::prelude::*;

verus! {

/// The recognized configuration: result cap and score threshold.
pub struct Config {
    /// Largest number of results a query may yield.
    pub max_entries: usize,
    /// A window is offered only when its combined score strictly exceeds
    /// this.
    pub score_threshold: i64,
}

impl Default for Config {
    /// The built-in configuration: at most three results, threshold fifty.
    fn default() -> (c: Config)
        ensures
            c.max_entries == 3,
            c.score_threshold == 50,
    {
        Config { max_entries: 3, score_threshold: 50 }
    }
}

/// Everything one activation session works from: the configuration, the
/// window snapshot and the desktop-entry catalog, all immutable once built.
pub struct Context {
    /// The configuration in force.
    pub config: Config,
    /// The window snapshot, numbered in report order.
    pub hyprland_clients: Vec<WindowRecord>,
    /// The desktop-entry catalog, in directory scan order.
    pub desktop_entries: Vec<DesktopEntry>,
}

impl Context {
    /// A session with default configuration, no windows and no catalog.
    pub fn empty() -> (c: Context)
        ensures
            c.config.max_entries == 3,
            c.config.score_threshold == 50,
            c.hyprland_clients@.len() == 0,
            c.desktop_entries@.len() == 0,
    {
        Context { config: Config::default(), hyprland_clients: Vec::new(), desktop_entries: Vec::new() }
    }
}

/// One produced result: what the host shows and the id it hands back on
/// selection.
pub struct MatchResult {
    /// The window's title, shown to the user.
    pub title: String,
    /// The resolved icon identifier.
    pub icon: String,
    /// The window's snapshot id, for the selection callback.
    pub id: u64,
}

/// How one produced result relates to the candidate it came from: it shows
/// that window's title, carries its id, and its icon is the fallback chain's
/// outcome for that window under some process-table answer.
pub open spec fn result_matches(
    m: MatchResult,
    c: ScoredCandidate,
    ws: Seq<WindowRecord>,
    es: Seq<DesktopEntry>,
) -> bool {
    &&& 0 <= c.idx < ws.len()
    &&& m.title@ == ws[c.idx as int].title@
    &&& m.id == ws[c.idx as int].id
    &&& exists|pn: Option<Seq<char>>| m.icon@ == resolve_icon_spec(es, ws[c.idx as int].class@, pn)
}

/// Ranks the window snapshot against `input` and resolves an icon for each
/// surviving window: the results are some descending-score ordering of
/// exactly the windows passing the filter, cut to the configured maximum.
pub fn get_matches(input: &str, ctx: &Context) -> (r: Vec<MatchResult>)
    ensures
        ({
            let cs = candidates(ctx.hyprland_clients@, input@, ctx.config.score_threshold as int);
            &&& r@.len() == min_int(ctx.config.max_entries as int, cs.len() as int)
            &&& exists|s: Seq<ScoredCandidate>|
                #![auto]
                {
                    &&& s.to_multiset() == cs.to_multiset()
                    &&& sorted_desc(s)
                    &&& r@.len() <= s.len()
                    &&& forall|k: int|
                        0 <= k < r@.len() ==> result_matches(
                            r@[k],
                            s[k],
                            ctx.hyprland_clients@,
                            ctx.desktop_entries@,
                        )
                }
        }),
{
    let ranked = rank_windows(
        input,
        &ctx.hyprland_clients,
        ctx.config.score_threshold,
        ctx.config.max_entries,
    );
    let ghost cs = candidates(ctx.hyprland_clients@, input@, ctx.config.score_threshold as int);
    proof {
        assert(exists|s: Seq<ScoredCandidate>|
            #![auto]
            {
                &&& s.to_multiset() == cs.to_multiset()
                &&& sorted_desc(s)
                &&& ranked@ == s.take(min_int(ctx.config.max_entries as int, s.len() as int))
            });
    }
    let ghost s = choose|s: Seq<ScoredCandidate>|
        #![auto]
        {
            &&& s.to_multiset() == cs.to_multiset()
            &&& sorted_desc(s)
            &&& ranked@ == s.take(min_int(ctx.config.max_entries as int, s.len() as int))
        };
    let snapshot_len = ctx.hyprland_clients.len();
    proof {
        assert(ctx.hyprland_clients@.len() == snapshot_len);
        lemma_candidates_elems(ctx.hyprland_clients@, input@, ctx.config.score_threshold as int);
        assert forall|k: int|
            0 <= k < ranked@.len() implies (#[trigger] ranked@[k]).idx
            < ctx.hyprland_clients@.len() by {
            assert(cs.to_multiset().contains(ranked@[k]));
        }
        assert(ranked@.len() <= s.len());
    }
    let mut out: Vec<MatchResult> = Vec::new();
    let mut i: usize = 0;
    while i < ranked.len()
        invariant
            i <= ranked@.len(),
            out@.len() == i,
            ranked@.len() <= s.len(),
            ranked@ == s.take(min_int(ctx.config.max_entries as int, s.len() as int)),
            forall|k: int|
                0 <= k < ranked@.len() ==> (#[trigger] ranked@[k]).idx
                    < ctx.hyprland_clients@.len(),
            forall|k: int|
                0 <= k < i ==> result_matches(
                    #[trigger] out@[k],
                    ranked@[k],
                    ctx.hyprland_clients@,
                    ctx.desktop_entries@,
                ),
        decreases ranked@.len() - i,
    {
        let c_idx = ranked[i].idx;
        let w = &ctx.hyprland_clients[c_idx];
        let icon = find_icon(&w.class, w.pid, &ctx.desktop_entries);
        out.push(MatchResult { title: w.title.clone(), icon, id: w.id });
        i = i + 1;
    }
    proof {
        assert forall|k: int|
            0 <= k < out@.len() implies result_matches(
            out@[k],
            s[k],
            ctx.hyprland_clients@,
            ctx.desktop_entries@,
        ) by {
            assert(ranked@[k] == s[k]);
        }
    }
    out
}

} // verus!
