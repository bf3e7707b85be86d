//! Position resolver: picks the initial placement of a newly tracked window
//! from persisted per-character data, session-only memory, or nothing (the
//! caller then centers the tile).

use vstd::prelude::*;

use crate::charmap::CharacterMap;
use crate::cycle::WindowHandle;

verus! {

/// The map an association list of (window, position) entries denotes.
pub open spec fn session_map(s: Seq<(WindowHandle, (i16, i16))>) -> Map<WindowHandle, (i16, i16)>
    decreases s.len(),
{
    if s.len() == 0 {
        Map::empty()
    } else {
        session_map(s.drop_last()).insert(s.last().0, s.last().1)
    }
}

/// No two entries share a window handle.
pub open spec fn session_unique(s: Seq<(WindowHandle, (i16, i16))>) -> bool {
    forall|i: int, j: int| 0 <= i < j < s.len() ==> s[i].0 != s[j].0
}

proof fn lemma_session_value(s: Seq<(WindowHandle, (i16, i16))>, i: int)
    requires
        session_unique(s),
        0 <= i < s.len(),
    ensures
        session_map(s).contains_key(s[i].0),
        session_map(s)[s[i].0] == s[i].1,
    decreases s.len(),
{
    if i == s.len() - 1 {
    } else {
        lemma_session_value(s.drop_last(), i);
        assert(s.drop_last()[i] == s[i]);
    }
}

proof fn lemma_session_contains(s: Seq<(WindowHandle, (i16, i16))>, w: WindowHandle)
    ensures
        session_map(s).contains_key(w) <==> (exists|i: int| 0 <= i < s.len() && s[i].0 == w),
    decreases s.len(),
{
    if s.len() > 0 {
        lemma_session_contains(s.drop_last(), w);
        if s.last().0 == w {
            assert(s[s.len() - 1].0 == w);
        } else if session_map(s).contains_key(w) {
            let i = choose|i: int| 0 <= i < s.drop_last().len() && s.drop_last()[i].0 == w;
            assert(s[i].0 == w);
        } else if exists|i: int| 0 <= i < s.len() && s[i].0 == w {
            let i = choose|i: int| 0 <= i < s.len() && s[i].0 == w;
            assert(s.drop_last()[i].0 == w);
        }
    }
}

proof fn lemma_session_update(
    s: Seq<(WindowHandle, (i16, i16))>,
    i: int,
    p: (WindowHandle, (i16, i16)),
)
    requires
        session_unique(s),
        0 <= i < s.len(),
        p.0 == s[i].0,
    ensures
        session_unique(s.update(i, p)),
        session_map(s.update(i, p)) == session_map(s).insert(p.0, p.1),
    decreases s.len(),
{
    let t = s.update(i, p);
    assert(forall|k: int| 0 <= k < s.len() && k != i ==> t[k] == s[k]);
    if i == s.len() - 1 {
        assert(t.drop_last() =~= s.drop_last());
        assert(session_map(t) =~= session_map(s).insert(p.0, p.1));
    } else {
        lemma_session_update(s.drop_last(), i, p);
        assert(t.drop_last() =~= s.drop_last().update(i, p));
        assert(t.last() == s.last());
        assert(s.last().0 != p.0);
        assert(session_map(t) =~= session_map(s).insert(p.0, p.1));
    }
}

proof fn lemma_session_push(s: Seq<(WindowHandle, (i16, i16))>, p: (WindowHandle, (i16, i16)))
    requires
        session_unique(s),
        forall|i: int| 0 <= i < s.len() ==> s[i].0 != p.0,
    ensures
        session_unique(s.push(p)),
        session_map(s.push(p)) == session_map(s).insert(p.0, p.1),
{
    assert(s.push(p).drop_last() =~= s);
    assert(s.push(p).last() == p);
}

/// Session-only position memory. Window positions recorded here are keyed by
/// window handle, never persisted to disk, and serve windows that lack a
/// stable character-name key.
pub struct SavedState {
    /// Window handle -> last known (x, y), for this session only.
    window_positions: Vec<(WindowHandle, (i16, i16))>,
    /// Whether a never-seen character may inherit its window's last session
    /// position instead of spawning centered.
    inherit_window_position: bool,
}

impl SavedState {
    /// The session position map this value denotes.
    pub closed spec fn positions(&self) -> Map<WindowHandle, (i16, i16)> {
        session_map(self.window_positions@)
    }

    /// One position entry per window handle.
    pub closed spec fn wf(&self) -> bool {
        session_unique(self.window_positions@)
    }

    /// The inherit-last-window-position policy.
    pub closed spec fn inherit(&self) -> bool {
        self.inherit_window_position
    }

    /// Whether a never-seen character inherits its window's session position.
    pub fn inherit_window_position(&self) -> (r: bool)
        ensures
            r == self.inherit(),
    {
        self.inherit_window_position
    }

    /// Switch the inherit-last-window-position policy.
    pub fn set_inherit_window_position(&mut self, inherit: bool)
        ensures
            final(self).inherit() == inherit,
            final(self).positions() == old(self).positions(),
            final(self).wf() == old(self).wf(),
    {
        self.inherit_window_position = inherit;
    }

    pub fn new() -> (r: Self)
        ensures
            r.wf(),
            r.positions() == Map::<WindowHandle, (i16, i16)>::empty(),
            !r.inherit(),
    {
        Self { window_positions: Vec::new(), inherit_window_position: false }
    }

    /// What the resolver returns, given the persisted settings, the session
    /// positions, the inherit policy, the character name and the window:
    /// a persisted position for a non-empty name always wins; a session
    /// position keyed by the window serves a never-seen non-empty name only
    /// under the inherit policy, and an empty (unidentified) name whenever it
    /// is recorded; otherwise there is nothing, and the caller centers.
    pub open spec fn resolved_position(
        persisted: Map<Seq<char>, crate::types::CharacterSettings>,
        session: Map<WindowHandle, (i16, i16)>,
        inherit: bool,
        name: Seq<char>,
        window: WindowHandle,
    ) -> Option<(i16, i16)> {
        if name.len() > 0 {
            if persisted.contains_key(name) {
                Some((persisted[name].x, persisted[name].y))
            } else if inherit && session.contains_key(window) {
                Some(session[window])
            } else {
                None
            }
        } else {
            if session.contains_key(window) {
                Some(session[window])
            } else {
                None
            }
        }
    }

    /// Initial position for a newly tracked window, or nothing (the caller
    /// then centers the tile).
    pub fn get_position(
        &self,
        character_name: &str,
        window: WindowHandle,
        character_positions: &CharacterMap,
    ) -> (r: Option<(i16, i16)>)
        requires
            self.wf(),
            character_positions.wf(),
        ensures
            r == Self::resolved_position(
                character_positions.view(),
                self.positions(),
                self.inherit(),
                character_name@,
                window,
            ),
    {
        if !character_name.is_empty() {
            if let Some(settings) = character_positions.get(character_name) {
                return Some((settings.x, settings.y));
            }
            if self.inherit_window_position {
                if let Some(pos) = self.lookup_window(window) {
                    return Some(pos);
                }
            }
            return None;
        }
        self.lookup_window(window)
    }

    /// The session position recorded for a window, if any.
    fn lookup_window(&self, window: WindowHandle) -> (r: Option<(i16, i16)>)
        requires
            self.wf(),
        ensures
            match r {
                Some(pos) => self.positions().contains_key(window) && self.positions()[window]
                    == pos,
                None => !self.positions().contains_key(window),
            },
    {
        let n = self.window_positions.len();
        let mut i: usize = 0;
        while i < n
            invariant
                n == self.window_positions@.len(),
                i <= n,
                session_unique(self.window_positions@),
                forall|k: int| 0 <= k < i ==> self.window_positions@[k].0 != window,
            decreases n - i,
        {
            if self.window_positions[i].0 == window {
                proof {
                    lemma_session_value(self.window_positions@, i as int);
                }
                return Some(self.window_positions[i].1);
            }
            i = i + 1;
        }
        proof {
            lemma_session_contains(self.window_positions@, window);
        }
        None
    }

    /// Record the session position of a window.
    pub fn update_window_position(&mut self, window: WindowHandle, x: i16, y: i16)
        requires
            old(self).wf(),
        ensures
            final(self).wf(),
            final(self).positions() == old(self).positions().insert(window, (x, y)),
            final(self).inherit() == old(self).inherit(),
    {
        let n = self.window_positions.len();
        let mut i: usize = 0;
        while i < n
            invariant
                n == self.window_positions@.len(),
                i <= n,
                session_unique(self.window_positions@),
                *self == *old(self),
                forall|k: int| 0 <= k < i ==> self.window_positions@[k].0 != window,
            decreases n - i,
        {
            if self.window_positions[i].0 == window {
                proof {
                    let s = self.window_positions@;
                    lemma_session_update(s, i as int, (window, (x, y)));
                }
                self.window_positions[i].1 = (x, y);
                return ;
            }
            i = i + 1;
        }
        proof {
            lemma_session_push(self.window_positions@, (window, (x, y)));
        }
        self.window_positions.push((window, (x, y)));
    }
}

impl Default for SavedState {
    fn default() -> (r: Self)
        ensures
            r.wf(),
            r.positions() == Map::<WindowHandle, (i16, i16)>::empty(),
            !r.inherit(),
    {
        SavedState::new()
    }
}

} // verus!
