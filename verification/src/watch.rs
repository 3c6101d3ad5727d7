//! The file-watching subsystem's decisions: which filesystem events concern
//! a watched file, and how the native watcher is torn down and recreated.
//!
//! Native notification semantics vary by platform and editor save strategy,
//! so an event is matched against the watched set through five escalating
//! strategies: exact path equality, canonical-path equality, equality after
//! making both paths absolute under the working directory, same parent
//! directory with the same file name (a rename through a temporary file),
//! and finally a directory-level event on a watched file's parent. All five
//! are kept deliberately: each covers a real platform.

use vstd::prelude::*;

verus! {

use crate::paths::{
    parent_of,
    file_name_of,
    join_under,
    bytes_eq,
    parents_equal,
    file_names_equal,
    parent_is,
    join_bytes,
};
use crate::protocol::opt_str_view;
use vstd::utf8::encode_utf8;

/// What is known of one path when an event is matched: the path text, its
/// filesystem-resolved form when resolution succeeded, and whether the path
/// names a directory right now. The last two only the filesystem can
/// answer, so the watcher's caller supplies them.
pub struct PathFacts {
    pub path: String,
    pub canonical: Option<String>,
    pub is_dir: bool,
}

/// The model of `PathFacts`, at byte level.
pub struct PathFactsV {
    pub path: Seq<u8>,
    pub canonical: Option<Seq<u8>>,
    pub is_dir: bool,
}

pub open spec fn opt_bytes_view(o: Option<Seq<char>>) -> Option<Seq<u8>> {
    match o {
        Option::Some(s) => Option::Some(encode_utf8(s)),
        Option::None => Option::None,
    }
}

impl View for PathFacts {
    type V = PathFactsV;

    open spec fn view(&self) -> PathFactsV {
        PathFactsV {
            path: encode_utf8(self.path@),
            canonical: opt_bytes_view(opt_str_view(self.canonical)),
            is_dir: self.is_dir,
        }
    }
}

/// A path made absolute: its canonical form when resolution succeeded,
/// else the path joined under the working directory, when one is known.
pub open spec fn abs_of(p: PathFactsV, cwd: Option<Seq<u8>>) -> Option<Seq<u8>> {
    match p.canonical {
        Option::Some(c) => Option::Some(c),
        Option::None => match cwd {
            Option::Some(d) => Option::Some(join_under(d, p.path)),
            Option::None => Option::None,
        },
    }
}

/// Whether the event concerns this one watched file, by any of the five
/// strategies.
pub open spec fn pair_match(e: PathFactsV, w: PathFactsV, cwd: Option<Seq<u8>>) -> bool {
    ||| e.path == w.path
    ||| (e.canonical is Some && e.canonical == w.canonical)
    ||| (abs_of(e, cwd) is Some && abs_of(e, cwd) == abs_of(w, cwd))
    ||| (parent_of(e.path) is Some && parent_of(e.path) == parent_of(w.path) && file_name_of(
        e.path,
    ) is Some && file_name_of(e.path) == file_name_of(w.path))
    ||| (e.is_dir && parent_of(w.path) == Option::Some(e.path))
}

/// Whether the event concerns any watched file.
pub open spec fn event_concerns(
    e: PathFactsV,
    watched: Seq<PathFactsV>,
    cwd: Option<Seq<u8>>,
) -> bool {
    exists|i: int| 0 <= i < watched.len() && pair_match(e, watched[i], cwd)
}

pub open spec fn facts_view(v: Seq<PathFacts>) -> Seq<PathFactsV>
    decreases v,
{
    if v.len() == 0 {
        Seq::empty()
    } else {
        facts_view(v.drop_last()).push(v.last()@)
    }
}

pub proof fn lemma_facts_view(v: Seq<PathFacts>)
    ensures
        facts_view(v).len() == v.len(),
        forall|i: int| 0 <= i < v.len() ==> facts_view(v)[i] == v[i]@,
    decreases v,
{
    if v.len() > 0 {
        lemma_facts_view(v.drop_last());
    }
}

/// Whether the event concerns this one watched file.
fn pair_matches(e: &PathFacts, w: &PathFacts, cwd: &Option<String>) -> (r: bool)
    ensures
        r == pair_match(e@, w@, opt_bytes_view(opt_str_view(*cwd))),
{
    let eb = e.path.as_str().as_bytes();
    let wb = w.path.as_str().as_bytes();
    if bytes_eq(eb, wb) {
        return true;
    }
    let canon = match (&e.canonical, &w.canonical) {
        (Option::Some(ec), Option::Some(wc)) => bytes_eq(
            ec.as_str().as_bytes(),
            wc.as_str().as_bytes(),
        ),
        _ => false,
    };
    if canon {
        return true;
    }
    let ea = abs_bytes(e, cwd);
    let wa = abs_bytes(w, cwd);
    let absolute = match (&ea, &wa) {
        (Option::Some(x), Option::Some(y)) => bytes_eq(x.as_slice(), y.as_slice()),
        _ => false,
    };
    if absolute {
        return true;
    }
    if parents_equal(eb, wb) && file_names_equal(eb, wb) {
        return true;
    }
    e.is_dir && parent_is(wb, eb)
}

/// The event path made absolute, as `abs_of`.
fn abs_bytes(p: &PathFacts, cwd: &Option<String>) -> (r: Option<Vec<u8>>)
    ensures
        (match r {
            Option::Some(v) => abs_of(p@, opt_bytes_view(opt_str_view(*cwd))) == Option::Some(
                v@,
            ),
            Option::None => abs_of(p@, opt_bytes_view(opt_str_view(*cwd))) is None,
        }),
{
    match &p.canonical {
        Option::Some(c) => Option::Some(
            vstd::slice::slice_to_vec(c.as_str().as_bytes()),
        ),
        Option::None => match cwd {
            Option::Some(d) => Option::Some(
                join_bytes(d.as_str().as_bytes(), p.path.as_str().as_bytes()),
            ),
            Option::None => Option::None,
        },
    }
}

/// Whether a delivered (already debounced) filesystem event concerns any
/// watched file. A match is what raises the reload request.
pub fn event_matches_watched(
    e: &PathFacts,
    watched: &Vec<PathFacts>,
    cwd: &Option<String>,
) -> (r: bool)
    ensures
        r == event_concerns(e@, facts_view(watched@), opt_bytes_view(opt_str_view(*cwd))),
{
    let ghost wv = facts_view(watched@);
    proof {
        lemma_facts_view(watched@);
    }
    let n = watched.len();
    let mut i: usize = 0;
    while i < n
        invariant
            i <= n,
            n == watched@.len(),
            wv == facts_view(watched@),
            wv.len() == n,
            forall|k: int| 0 <= k < n ==> wv[k] == watched@[k]@,
            forall|k: int|
                0 <= k < i ==> !pair_match(e@, wv[k], opt_bytes_view(opt_str_view(*cwd))),
        decreases n - i,
    {
        if pair_matches(e, &watched[i], cwd) {
            proof {
                assert(pair_match(e@, wv[i as int], opt_bytes_view(opt_str_view(*cwd))));
            }
            return true;
        }
        i = i + 1;
    }
    false
}

// ---------------------------------------------------------------------------
// The watcher's lifecycle. The native subscription itself is an operating
// system resource the caller owns; this model decides when it must be
// dropped and what the replacement subscribes to, so that no two live
// subscriptions ever coexist and a restart always ends on the latest set.
// ---------------------------------------------------------------------------

use crate::protocol::strings_view;

/// One native watcher instance: the exact paths it is bound to.
pub struct WatchSubscription {
    pub paths: Vec<String>,
}

/// The model of a subscription.
pub struct WatchSubscriptionV {
    pub paths: Seq<Seq<char>>,
}

impl View for WatchSubscription {
    type V = WatchSubscriptionV;

    open spec fn view(&self) -> WatchSubscriptionV {
        WatchSubscriptionV { paths: strings_view(self.paths@) }
    }
}

pub open spec fn opt_sub_view(o: Option<WatchSubscription>) -> Option<WatchSubscriptionV> {
    match o {
        Option::Some(s) => Option::Some(s@),
        Option::None => Option::None,
    }
}

/// The watcher's state: at most one live subscription, by construction, and
/// the flag that asks for a restart when the set of watched files changed.
pub struct WatcherState {
    pub live: Option<WatchSubscription>,
    pub restart_requested: bool,
}

/// The model of the watcher's state.
pub struct WatcherStateV {
    pub live: Option<WatchSubscriptionV>,
    pub restart_requested: bool,
}

impl View for WatcherState {
    type V = WatcherStateV;

    open spec fn view(&self) -> WatcherStateV {
        WatcherStateV {
            live: opt_sub_view(self.live),
            restart_requested: self.restart_requested,
        }
    }
}

/// Dropping the old subscription: nothing is live afterwards.
pub open spec fn after_drop(s: WatcherStateV) -> WatcherStateV {
    WatcherStateV { live: Option::None, restart_requested: s.restart_requested }
}

/// Installing the outcome of recreation: the new subscription (or none, on
/// failure), with the restart request cleared either way.
pub open spec fn after_install(s: WatcherStateV, sub: Option<WatchSubscriptionV>) -> WatcherStateV {
    WatcherStateV { live: sub, restart_requested: false }
}

impl WatcherState {
    /// The state before any watcher has started.
    pub fn new() -> (r: WatcherState)
        ensures
            r@.live is None,
            !r@.restart_requested,
    {
        WatcherState { live: Option::None, restart_requested: false }
    }

    /// Drops the live subscription. This must come first on a restart: the
    /// old native watcher has to release its handles before a replacement
    /// subscribes, or handles leak and events arrive twice.
    pub fn drop_subscription(&mut self)
        ensures
            final(self)@ == after_drop(old(self)@),
    {
        self.live = Option::None;
    }

    /// Installs the recreation's outcome and clears the restart request.
    pub fn install(&mut self, sub: Option<WatchSubscription>)
        ensures
            final(self)@ == after_install(old(self)@, opt_sub_view(sub)),
    {
        self.live = sub;
        self.restart_requested = false;
    }

    /// Asks for a restart once the engine is done reloading.
    pub fn request_restart(&mut self)
        ensures
            final(self)@.live == old(self)@.live,
            final(self)@.restart_requested,
    {
        self.restart_requested = true;
    }
}

/// The exact set a recreated watcher subscribes to: the configuration
/// files, then the discovered files, in order.
pub fn watch_plan(cfg_paths: &Vec<String>, included_files: &Vec<String>) -> (r: Vec<String>)
    ensures
        strings_view(r@) == strings_view(cfg_paths@) + strings_view(included_files@),
{
    let mut out: Vec<String> = Vec::new();
    proof {
        assert(strings_view(out@) =~= strings_view(cfg_paths@.take(0)));
    }
    let n = cfg_paths.len();
    let mut i: usize = 0;
    while i < n
        invariant
            i <= n,
            n == cfg_paths@.len(),
            strings_view(out@) == strings_view(cfg_paths@.take(i as int)),
        decreases n - i,
    {
        let ghost pre = out@;
        out.push(cfg_paths[i].clone());
        proof {
            assert(out@.drop_last() =~= pre);
            assert(cfg_paths@.take(i + 1).drop_last() =~= cfg_paths@.take(i as int));
            assert(strings_view(out@) =~= strings_view(cfg_paths@.take(i + 1)));
        }
        i = i + 1;
    }
    proof {
        assert(cfg_paths@.take(n as int) =~= cfg_paths@);
    }
    let ghost head = strings_view(out@);
    let m = included_files.len();
    let mut j: usize = 0;
    proof {
        assert(head + strings_view(included_files@.take(0)) =~= head);
    }
    while j < m
        invariant
            j <= m,
            m == included_files@.len(),
            strings_view(out@) == head + strings_view(included_files@.take(j as int)),
        decreases m - j,
    {
        let ghost pre = out@;
        out.push(included_files[j].clone());
        proof {
            assert(out@.drop_last() =~= pre);
            assert(included_files@.take(j + 1).drop_last() =~= included_files@.take(j as int));
            assert(strings_view(out@) =~= strings_view(pre).push(included_files@[j as int]@));
            assert(strings_view(included_files@.take(j + 1)) =~= strings_view(
                included_files@.take(j as int),
            ).push(included_files@[j as int]@));
            assert(strings_view(out@) =~= head + strings_view(included_files@.take(j + 1)));
        }
        j = j + 1;
    }
    proof {
        assert(included_files@.take(m as int) =~= included_files@);
    }
    out
}

/// Restart sequencing: a restart drops the old subscription before the new
/// one exists, so no two native watchers are ever live at once; and two
/// restarts in a row leave exactly one live subscription, bound to the
/// latest set.
pub proof fn lemma_restart_sequencing(
    s0: WatcherStateV,
    first: WatchSubscriptionV,
    second: WatchSubscriptionV,
)
    ensures
        after_drop(s0).live is None,
        ({
            let s1 = after_install(after_drop(s0), Option::Some(first));
            &&& s1.live == Option::Some(first)
            &&& !s1.restart_requested
            &&& after_drop(s1).live is None
            &&& after_install(after_drop(s1), Option::Some(second)).live == Option::Some(second)
        }),
{
}

/// A failed recreation leaves the watcher explicitly absent, never stale.
pub proof fn lemma_failed_restart_leaves_none(s0: WatcherStateV)
    ensures
        after_install(after_drop(s0), Option::None).live is None,
        !after_install(after_drop(s0), Option::None).restart_requested,
{
}

// ---------------------------------------------------------------------------
// The reload request on the shared engine state.
// ---------------------------------------------------------------------------

/// The engine-state flags the watcher and server touch. The engine's own
/// loop clears `live_reload_requested` when it performs the reload.
pub struct ReloadFlags {
    pub live_reload_requested: bool,
}

impl ReloadFlags {
    /// Raises the reload request. Raising it again before the engine clears
    /// it changes nothing: triggers collapse into one reload.
    pub fn request_live_reload(&mut self)
        ensures
            final(self).live_reload_requested,
            old(self).live_reload_requested ==> *final(self) == *old(self),
    {
        self.live_reload_requested = true;
    }
}

} // verus!
