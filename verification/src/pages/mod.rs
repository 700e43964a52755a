//! Page registry and switching.
//!
//! All page registration, touch routing and `switch_mode` requests go
//! through `PageManager`. The manager decides which page is active, when a
//! detail page has been idle long enough to return home, and to which page a
//! touch goes; drawing and touch handling are done by the pages themselves.
//! Times are monotonic milliseconds supplied by the caller.

use vstd::prelude::*;
use crate::textutil::str_eq;

pub mod cpu;
pub mod detail_common;
pub mod disk;
pub mod monitor;
pub mod net;
pub mod temp;

verus! {

#[derive(Clone, Debug, PartialEq, Eq)]
pub enum PageAction {
    Nothing,
    /// Switch to the page with the given id.
    Switch(&'static str),
}

/// Auto-return timeout for detail pages.
pub const DETAIL_IDLE_TIMEOUT_MS: u64 = 60_000;

/// Abstract state of the manager: the registered page ids in registration
/// order, the active and home ids, and the time of the last activity.
pub struct ManagerView {
    pub ids: Seq<Seq<char>>,
    pub active: Seq<char>,
    pub home: Seq<char>,
    pub last_activity: u64,
}

/// Registering a page: the first page (while none is active) becomes both
/// active and home; an id registered twice is kept once.
pub open spec fn register_spec(v: ManagerView, id: Seq<char>) -> ManagerView {
    let first = v.active.len() == 0;
    ManagerView {
        ids: if v.ids.contains(id) {
            v.ids
        } else {
            v.ids.push(id)
        },
        active: if first {
            id
        } else {
            v.active
        },
        home: if first {
            id
        } else {
            v.home
        },
        last_activity: v.last_activity,
    }
}

/// Switching to `id` at `now`: succeeds when `id` is already active (the
/// idle timer restarts) or registered (it becomes active); otherwise nothing
/// changes.
pub open spec fn switch_spec(v: ManagerView, id: Seq<char>, now: u64) -> (ManagerView, bool) {
    if id == v.active {
        (ManagerView { last_activity: now, ..v }, true)
    } else if !v.ids.contains(id) {
        (v, false)
    } else {
        (ManagerView { active: id, last_activity: now, ..v }, true)
    }
}

/// Milliseconds from `last` to `now`, never negative.
pub open spec fn elapsed_ms(last: u64, now: u64) -> int {
    if now >= last {
        now - last
    } else {
        0
    }
}

/// Whether a detail page has been idle long enough at `now` to return home.
pub open spec fn idle_expired(v: ManagerView, now: u64) -> bool {
    &&& v.active != v.home
    &&& v.home.len() > 0
    &&& elapsed_ms(v.last_activity, now) >= DETAIL_IDLE_TIMEOUT_MS
}

pub struct PageManager {
    ids: Vec<&'static str>,
    active: &'static str,
    home_id: &'static str,
    last_activity_ms: u64,
}

impl View for PageManager {
    type V = ManagerView;

    closed spec fn view(&self) -> ManagerView {
        ManagerView {
            ids: self.ids@.map_values(|s: &'static str| s@),
            active: self.active@,
            home: self.home_id@,
            last_activity: self.last_activity_ms,
        }
    }
}

impl PageManager {
    /// An empty manager: no pages, no active page; `now_ms` starts the idle
    /// timer.
    pub fn new(now_ms: u64) -> (m: Self)
        ensures
            m@.ids.len() == 0,
            m@.active.len() == 0,
            m@.home.len() == 0,
            m@.last_activity == now_ms,
    {
        let m = PageManager { ids: Vec::new(), active: "", home_id: "", last_activity_ms: now_ms };
        proof {
            reveal_strlit("");
        }
        m
    }

    fn position(&self, id: &str) -> (r: Option<usize>)
        ensures
            match r {
                Some(i) => i < self@.ids.len() && self@.ids[i as int] == id@,
                None => !self@.ids.contains(id@),
            },
    {
        let mut i: usize = 0;
        while i < self.ids.len()
            invariant
                i <= self.ids@.len(),
                forall|j: int| 0 <= j < i ==> self.ids@[j]@ != id@,
            decreases self.ids@.len() - i,
        {
            if str_eq(self.ids[i], id) {
                return Some(i);
            }
            i = i + 1;
        }
        proof {
            if self@.ids.contains(id@) {
                let k = choose|k: int| 0 <= k < self@.ids.len() && self@.ids[k] == id@;
                assert(self.ids@[k]@ == id@);
            }
        }
        None
    }

    /// Register a page by its id. The first page registered becomes the
    /// active and the home page.
    pub fn register(&mut self, id: &'static str)
        ensures
            final(self)@ == register_spec(old(self)@, id@),
    {
        if self.active.is_empty() {
            self.active = id;
            self.home_id = id;
        }
        if self.position(id).is_none() {
            self.ids.push(id);
            proof {
                assert(self@.ids =~= old(self)@.ids.push(id@));
            }
        }
    }

    /// Switch to the page `id`. Returns `false`, changing nothing, when no
    /// such page is registered. The caller runs the leave and enter hooks of
    /// the pages when the active id changed.
    pub fn switch(&mut self, id: &'static str, now_ms: u64) -> (ok: bool)
        ensures
            (final(self)@, ok) == switch_spec(old(self)@, id@, now_ms),
    {
        if str_eq(id, self.active) {
            self.last_activity_ms = now_ms;
            return true;
        }
        if self.position(id).is_none() {
            return false;
        }
        self.active = id;
        self.last_activity_ms = now_ms;
        true
    }

    pub fn active_id(&self) -> (r: &'static str)
        ensures
            r@ == self@.active,
    {
        self.active
    }

    /// A touch at `now_ms`: restarts the idle timer and names the page that
    /// receives the touch, if the active id is a registered page.
    pub fn route_touch(&mut self, now_ms: u64) -> (r: Option<&'static str>)
        ensures
            final(self)@ == (ManagerView { last_activity: now_ms, ..old(self)@ }),
            match r {
                Some(p) => p@ == old(self)@.active && old(self)@.ids.contains(p@),
                None => !old(self)@.ids.contains(old(self)@.active),
            },
    {
        self.last_activity_ms = now_ms;
        if self.position(self.active).is_some() {
            Some(self.active)
        } else {
            None
        }
    }

    /// Check the idle timeout at `now_ms`: a detail page (any page but home)
    /// inactive for `DETAIL_IDLE_TIMEOUT_MS` asks to switch home.
    pub fn check_idle_timeout(&self, now_ms: u64) -> (r: PageAction)
        ensures
            match r {
                PageAction::Switch(p) => idle_expired(self@, now_ms) && p@ == self@.home,
                PageAction::Nothing => !idle_expired(self@, now_ms),
            },
    {
        if str_eq(self.active, self.home_id) || self.home_id.is_empty() {
            return PageAction::Nothing;
        }
        let elapsed = now_ms.saturating_sub(self.last_activity_ms);
        if elapsed >= DETAIL_IDLE_TIMEOUT_MS {
            PageAction::Switch(self.home_id)
        } else {
            PageAction::Nothing
        }
    }

    /// Refresh the activity timestamp.
    pub fn bump_activity(&mut self, now_ms: u64)
        ensures
            final(self)@ == (ManagerView { last_activity: now_ms, ..old(self)@ }),
    {
        self.last_activity_ms = now_ms;
    }

    pub fn is_registered(&self, id: &str) -> (r: bool)
        ensures
            r == self@.ids.contains(id@),
    {
        self.position(id).is_some()
    }
}

// ---------------------------------------------------------------------------
// Laws of page switching.
// ---------------------------------------------------------------------------

/// The first page registered on an empty manager is both active and home.
pub proof fn law_first_page_is_home(v: ManagerView, id: Seq<char>)
    requires
        v.active.len() == 0,
        id.len() > 0,
    ensures
        register_spec(v, id).active == id,
        register_spec(v, id).home == id,
        register_spec(v, id).ids.contains(id),
{
    if !v.ids.contains(id) {
        assert(v.ids.push(id)[v.ids.len() as int] == id);
    }
}

/// Switching to a registered page makes it active; switching to an unknown
/// page is refused and changes nothing.
pub proof fn law_switch(v: ManagerView, id: Seq<char>, now: u64)
    ensures
        v.ids.contains(id) || id == v.active ==> switch_spec(v, id, now).1 && switch_spec(
            v,
            id,
            now,
        ).0.active == id,
        !v.ids.contains(id) && id != v.active ==> switch_spec(v, id, now) == (v, false),
        switch_spec(v, id, now).0.ids == v.ids,
        switch_spec(v, id, now).0.home == v.home,
{
}

/// After a successful switch at `t` to a page other than home, the idle
/// check returns home exactly from `t + DETAIL_IDLE_TIMEOUT_MS` on.
pub proof fn law_idle_returns_home(v: ManagerView, id: Seq<char>, t: u64, now: u64)
    requires
        v.ids.contains(id),
        id != v.home,
        v.home.len() > 0,
        t <= now,
    ensures
        idle_expired(switch_spec(v, id, t).0, now) <==> now - t >= DETAIL_IDLE_TIMEOUT_MS,
{
}

/// The home page never times out.
pub proof fn law_home_never_times_out(v: ManagerView, now: u64)
    requires
        v.active == v.home,
    ensures
        !idle_expired(v, now),
{
}

} // verus!
