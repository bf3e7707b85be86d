//! Window registry and event dispatcher: the single authoritative map from
//! window handle to preview state. It consumes one windowing-system event at
//! a time, performs the state transition, and reports the rendering,
//! visibility and persistence work as a list of actions for the surrounding
//! program to carry out. Events that name an untracked handle are ignored.

use vstd::prelude::*;

use crate::cycle::add_window_post;
use crate::cycle::names_of;
use crate::cycle::remove_window_post;
use crate::cycle::CycleState;
use crate::cycle::WindowHandle;
use crate::resolver::SavedState;
use crate::settings::PersistentState;
use crate::types::CharacterSettings;

verus! {

/// Per-window preview record: the tracked window's character name, the
/// tile's geometry, its drag state, and its display flags. The rendering
/// handle (`damage`) is owned by the rendering collaborator and only matched
/// against damage events.
pub struct PreviewState {
    /// Character name; the empty string marks an unidentified window.
    pub character_name: String,
    pub x: i16,
    pub y: i16,
    pub width: u16,
    pub height: u16,
    /// Whether a drag is in progress.
    pub dragging: bool,
    /// Pointer position when the drag began.
    pub drag_start: (i16, i16),
    /// Tile position when the drag began.
    pub win_start: (i16, i16),
    pub visible: bool,
    pub focused: bool,
    pub minimized: bool,
    pub bordered: bool,
    /// Opaque rendering/damage handle owned by the rendering collaborator.
    pub damage: u32,
}

/// One windowing-system event, with the membership probe already resolved by
/// the caller: `name` is the probe's answer (none = not part of the tracked
/// family; the empty string = tracked but unidentified). `damage` is a fresh
/// rendering handle, used only when the event creates a preview.
pub enum WindowEvent {
    Created { window: WindowHandle, name: Option<String>, damage: u32 },
    Destroyed { window: WindowHandle },
    NameChanged { window: WindowHandle, name: Option<String>, damage: u32 },
    VisibilityChanged { window: WindowHandle, hidden: bool },
    FocusGained { window: WindowHandle },
    FocusLost { window: WindowHandle },
    ButtonDown { x: i16, y: i16 },
    ButtonUp { x: i16, y: i16, button: u8 },
    PointerMoved { x: i16, y: i16 },
    DamageNotify { damage: u32 },
}

/// Work for the rendering, visibility and persistence collaborators.
#[derive(Debug, Clone, PartialEq, Eq)]
pub enum Action {
    CreatePreview { window: WindowHandle, name: String, x: i16, y: i16, width: u16, height: u16 },
    DestroyPreview { window: WindowHandle },
    Reposition { window: WindowHandle, x: i16, y: i16 },
    SetBorder { window: WindowHandle, on: bool },
    SetVisible { window: WindowHandle, on: bool },
    SetMinimized { window: WindowHandle },
    UpdateLabel { window: WindowHandle, name: String },
    RaiseAndFocus { window: WindowHandle },
    RedrawDamaged { window: WindowHandle },
    SaveCharacterSettings { name: String, x: i16, y: i16, width: u16, height: u16 },
}

/// No two registry entries track the same window.
pub open spec fn handles_unique(tiles: Seq<(WindowHandle, PreviewState)>) -> bool {
    forall|i: int, j: int| 0 <= i < j < tiles.len() ==> tiles[i].0 != tiles[j].0
}

/// Whether some registry entry tracks this window.
pub open spec fn registered(tiles: Seq<(WindowHandle, PreviewState)>, window: WindowHandle) -> bool {
    exists|i: int| 0 <= i < tiles.len() && tiles[i].0 == window
}

/// Whether the tile's bounds contain the point (edges inclusive on the
/// left/top, exclusive on the right/bottom).
pub open spec fn contains_point(t: PreviewState, x: i16, y: i16) -> bool {
    &&& t.x <= x < t.x + t.width
    &&& t.y <= y < t.y + t.height
}

/// The engine: registry, cycle navigator, session position memory and the
/// persisted settings snapshot, owned as one aggregate and driven by the
/// single event loop.
pub struct Engine {
    registry: Vec<(WindowHandle, PreviewState)>,
    cycle: CycleState,
    session: SavedState,
    store: PersistentState,
    screen_width: u16,
    screen_height: u16,
}

impl Engine {
    /// The registry: one (window, preview state) entry per tracked window.
    pub closed spec fn tiles(&self) -> Seq<(WindowHandle, PreviewState)> {
        self.registry@
    }

    /// The cycle navigator.
    pub closed spec fn nav(&self) -> CycleState {
        self.cycle
    }

    /// The session-only position memory.
    pub closed spec fn sess(&self) -> SavedState {
        self.session
    }

    /// The persisted settings snapshot.
    pub closed spec fn store(&self) -> PersistentState {
        self.store
    }

    pub closed spec fn screen_w(&self) -> u16 {
        self.screen_width
    }

    pub closed spec fn screen_h(&self) -> u16 {
        self.screen_height
    }

    /// Structural well-formedness of the whole aggregate.
    pub open spec fn wf(&self) -> bool {
        &&& handles_unique(self.tiles())
        &&& self.nav().wf()
        &&& self.sess().wf()
        &&& self.store().wf()
    }

    pub fn new(
        settings: PersistentState,
        session: SavedState,
        screen_width: u16,
        screen_height: u16,
    ) -> (r: Engine)
        requires
            settings.wf(),
            session.wf(),
        ensures
            r.wf(),
            r.tiles() == Seq::<(WindowHandle, PreviewState)>::empty(),
            r.nav().order() == names_of(settings.global.hotkey_order@),
            r.nav().active() == Map::<Seq<char>, WindowHandle>::empty(),
            r.nav().index() == 0,
            r.sess() == session,
            r.store() == settings,
            r.screen_w() == screen_width,
            r.screen_h() == screen_height,
    {
        let order = clone_names(&settings.global.hotkey_order);
        let cycle = CycleState::new(order);
        Engine {
            registry: Vec::new(),
            cycle,
            session,
            store: settings,
            screen_width,
            screen_height,
        }
    }

    /// The persisted settings snapshot, for building display configuration
    /// and for saving.
    pub fn settings(&self) -> (r: &PersistentState)
        ensures
            *r == self.store(),
    {
        &self.store
    }

    /// The configured cycle order, for saving.
    pub fn config_order(&self) -> (r: &Vec<String>)
        ensures
            names_of(r@) == self.nav().order(),
    {
        self.cycle.config_order()
    }

    /// The geometry of a tracked window's tile, if any.
    pub fn tile_geometry(&self, window: WindowHandle) -> (r: Option<(i16, i16, u16, u16)>)
        requires
            self.wf(),
        ensures
            match r {
                Some(g) => exists|i: int|
                    {
                        &&& 0 <= i < self.tiles().len()
                        &&& #[trigger] self.tiles()[i].0 == window
                        &&& g == (
                            self.tiles()[i].1.x,
                            self.tiles()[i].1.y,
                            self.tiles()[i].1.width,
                            self.tiles()[i].1.height,
                        )
                    },
                None => !registered(self.tiles(), window),
            },
    {
        match self.find_tile(window) {
            Some(i) => {
                let t = &self.registry[i].1;
                Some((t.x, t.y, t.width, t.height))
            },
            None => None,
        }
    }

    /// Advance the hotkey cycle and report the window to focus.
    pub fn cycle_forward(&mut self) -> (r: Option<WindowHandle>)
        requires
            old(self).wf(),
        ensures
            final(self).wf(),
            crate::cycle::forward_post(old(self).nav(), final(self).nav(), r),
            final(self).tiles() == old(self).tiles(),
            final(self).sess() == old(self).sess(),
            final(self).store() == old(self).store(),
            final(self).screen_w() == old(self).screen_w(),
            final(self).screen_h() == old(self).screen_h(),
    {
        self.cycle.cycle_forward()
    }

    /// Retreat the hotkey cycle and report the window to focus.
    pub fn cycle_backward(&mut self) -> (r: Option<WindowHandle>)
        requires
            old(self).wf(),
        ensures
            final(self).wf(),
            crate::cycle::backward_post(old(self).nav(), final(self).nav(), r),
            final(self).tiles() == old(self).tiles(),
            final(self).sess() == old(self).sess(),
            final(self).store() == old(self).store(),
            final(self).screen_w() == old(self).screen_w(),
            final(self).screen_h() == old(self).screen_h(),
    {
        self.cycle.cycle_backward()
    }

    /// Consume one windowing-system event and perform the transition it
    /// calls for; the returned actions are the rendering, visibility and
    /// persistence work the surrounding program must carry out, in order.
    /// Events that name an untracked handle leave the engine unchanged.
    pub fn handle_event(&mut self, event: WindowEvent) -> (acts: Vec<Action>)
        requires
            old(self).wf(),
        ensures
            final(self).wf(),
            handle_event_post(*old(self), *final(self), event, acts@),
    {
        match event {
            WindowEvent::Created { window, name, damage } => self.on_created(window, name, damage),
            WindowEvent::Destroyed { window } => self.on_destroyed(window),
            WindowEvent::NameChanged { window, name, damage } => self.on_name_changed(
                window,
                name,
                damage,
            ),
            WindowEvent::VisibilityChanged { window, hidden } => self.on_visibility_changed(
                window,
                hidden,
            ),
            WindowEvent::FocusGained { window } => self.on_focus_gained(window),
            WindowEvent::FocusLost { window } => self.on_focus_lost(window),
            WindowEvent::ButtonDown { x, y } => {
                self.on_button_down(x, y);
                Vec::new()
            },
            WindowEvent::ButtonUp { x, y, button } => self.on_button_up(x, y, button),
            WindowEvent::PointerMoved { x, y } => self.on_motion(x, y),
            WindowEvent::DamageNotify { damage } => self.on_damage(damage),
        }
    }

    /// A window appeared. With a probe name, resolve an initial position and
    /// dimensions, register the window, and ask for its preview tile.
    fn on_created(&mut self, window: WindowHandle, name: Option<String>, damage: u32) -> (acts:
        Vec<Action>)
        requires
            old(self).wf(),
        ensures
            final(self).wf(),
            created_post(*old(self), *final(self), window, name, damage, acts@),
    {
        let nm = match name {
            None => {
                return Vec::new();
            },
            Some(nm) => nm,
        };
        match self.find_tile(window) {
            Some(_) => {
                return Vec::new();
            },
            None => {},
        }
        let dims: (u16, u16) = if !nm.as_str().is_empty() {
            match self.store.character_positions.get(nm.as_str()) {
                Some(cs) => (
                    if cs.width > 0 {
                        cs.width
                    } else {
                        self.store.global.default_width
                    },
                    if cs.height > 0 {
                        cs.height
                    } else {
                        self.store.global.default_height
                    },
                ),
                None => (self.store.global.default_width, self.store.global.default_height),
            }
        } else {
            (self.store.global.default_width, self.store.global.default_height)
        };
        let pos: (i16, i16) = match self.session.get_position(
            nm.as_str(),
            window,
            &self.store.character_positions,
        ) {
            Some(p) => p,
            None => (
                centered_coordinate(self.screen_width, dims.0),
                centered_coordinate(self.screen_height, dims.1),
            ),
        };
        let tile = PreviewState {
            character_name: nm.clone(),
            x: pos.0,
            y: pos.1,
            width: dims.0,
            height: dims.1,
            dragging: false,
            drag_start: (0, 0),
            win_start: (0, 0),
            visible: true,
            focused: false,
            minimized: false,
            bordered: false,
            damage,
        };
        proof {
            assert forall|a: int, b: int|
                0 <= a < b < self.tiles().push((window, tile)).len() implies self.tiles().push(
                (window, tile),
            )[a].0 != self.tiles().push((window, tile))[b].0 by {
                if b < self.tiles().len() {
                    assert(self.tiles()[a].0 != self.tiles()[b].0);
                } else {
                    assert(self.tiles()[a].0 != window);
                }
            }
        }
        self.registry.push((window, tile));
        if !nm.as_str().is_empty() {
            self.cycle.add_window(nm.clone(), window);
        }
        let mut acts: Vec<Action> = Vec::new();
        acts.push(
            Action::CreatePreview {
                window,
                name: nm,
                x: pos.0,
                y: pos.1,
                width: dims.0,
                height: dims.1,
            },
        );
        acts
    }

    /// A window's title changed. An untracked window is treated as created;
    /// a registered one is relabeled, reattached in the navigator, its
    /// outgoing name's geometry snapshotted for persistence, and moved to the
    /// new name's persisted position if one exists.
    fn on_name_changed(&mut self, window: WindowHandle, name: Option<String>, damage: u32) -> (acts:
        Vec<Action>)
        requires
            old(self).wf(),
        ensures
            final(self).wf(),
            name_changed_post(*old(self), *final(self), window, name, damage, acts@),
    {
        let nm = match name {
            None => {
                return Vec::new();
            },
            Some(nm) => nm,
        };
        let i = match self.find_tile(window) {
            None => {
                return self.on_created(window, Some(nm), damage);
            },
            Some(i) => i,
        };
        let ghost pre = *old(self);
        let old_name = self.registry[i].1.character_name.clone();
        let ghost old_name_view = old_name@;
        let tx = self.registry[i].1.x;
        let ty = self.registry[i].1.y;
        let tw = self.registry[i].1.width;
        let th = self.registry[i].1.height;
        let moved = self.store.handle_character_change(
            old_name.as_str(),
            nm.as_str(),
            crate::types::Position::new(tx, ty),
            tw,
            th,
        );
        proof {
            let s = self.registry@;
            let t = s[i as int].1;
            lemma_handles_unique_update(
                s,
                i as int,
                (
                    window,
                    PreviewState {
                        character_name: nm,
                        x: match moved {
                            Some(p) => p.x,
                            None => t.x,
                        },
                        y: match moved {
                            Some(p) => p.y,
                            None => t.y,
                        },
                        ..t
                    },
                ),
            );
        }
        self.registry[i].1.character_name = nm.clone();
        match moved {
            Some(p) => {
                self.registry[i].1.x = p.x;
                self.registry[i].1.y = p.y;
            },
            None => {},
        }
        if !nm.as_str().is_empty() {
            self.cycle.update_character(window, nm.clone());
        } else {
            self.cycle.remove_window(window);
        }
        let mut acts: Vec<Action> = Vec::new();
        acts.push(Action::UpdateLabel { window, name: nm });
        if !old_name.as_str().is_empty() {
            acts.push(
                Action::SaveCharacterSettings { name: old_name, x: tx, y: ty, width: tw, height: th },
            );
        }
        match moved {
            Some(p) => acts.push(Action::Reposition { window, x: p.x, y: p.y }),
            None => {},
        }
        proof {
            let t = pre.tiles()[i as int].1;
            let mt = moved_target(self.store().character_positions.view(), nm@);
            assert(moved == match mt {
                Some(p) => Some(crate::types::Position { x: p.0, y: p.1 }),
                None => None::<crate::types::Position>,
            });
            assert(self.tiles() =~= pre.tiles().update(
                i as int,
                (
                    window,
                    PreviewState {
                        character_name: nm,
                        x: match mt {
                            Some(p) => p.0,
                            None => t.x,
                        },
                        y: match mt {
                            Some(p) => p.1,
                            None => t.y,
                        },
                        ..t
                    },
                ),
            ));
            assert(acts@ =~= seq![Action::UpdateLabel { window, name: nm }] + (if old_name_view.len()
                > 0 {
                seq![
                    Action::SaveCharacterSettings {
                        name: old_name,
                        x: t.x,
                        y: t.y,
                        width: t.width,
                        height: t.height,
                    },
                ]
            } else {
                Seq::<Action>::empty()
            }) + (match mt {
                Some(p) => seq![Action::Reposition { window, x: p.0, y: p.1 }],
                None => Seq::<Action>::empty(),
            }));
            assert(name_changed_at(pre, *self, window, nm, acts@, i as int));
        }
        acts
    }

    /// Focus arrived on a window: unminimize, mark focused, show a border;
    /// under the hide-when-unfocused policy, if any tile is hidden, show all.
    fn on_focus_gained(&mut self, window: WindowHandle) -> (acts: Vec<Action>)
        requires
            old(self).wf(),
        ensures
            final(self).wf(),
            focus_gained_post(*old(self), *final(self), window, acts@),
    {
        let mut acts: Vec<Action> = Vec::new();
        match self.find_tile(window) {
            Some(i) => {
                proof {
                    let s = self.registry@;
                    lemma_handles_unique_update(
                        s,
                        i as int,
                        (
                            window,
                            PreviewState {
                                minimized: false,
                                focused: true,
                                bordered: true,
                                ..s[i as int].1
                            },
                        ),
                    );
                }
                self.registry[i].1.minimized = false;
                self.registry[i].1.focused = true;
                self.registry[i].1.bordered = true;
                let ghost base = old(self).tiles().update(
                    i as int,
                    (
                        window,
                        PreviewState {
                            minimized: false,
                            focused: true,
                            bordered: true,
                            ..old(self).tiles()[i as int].1
                        },
                    ),
                );
                proof {
                    assert(self.registry@ =~= base);
                }
                acts.push(Action::SetBorder { window, on: true });
                if self.store.global.hide_when_no_focus && self.any_not_visible() {
                    proof {
                        let q = choose|q: int|
                            0 <= q < self.tiles().len() && !(#[trigger] self.tiles()[q].1.visible);
                        assert(!old(self).tiles()[q].1.visible);
                    }
                    self.set_all_visibility(true, &mut acts);
                    proof {
                        assert(acts@ =~= seq![Action::SetBorder { window, on: true }]
                            + set_visible_acts(base, true));
                    }
                } else {
                    proof {
                        if self.store.global.hide_when_no_focus && (exists|q: int|
                            0 <= q < old(self).tiles().len() && !(#[trigger] old(
                                self,
                            ).tiles()[q].1.visible)) {
                            let q = choose|q: int|
                                0 <= q < old(self).tiles().len() && !(#[trigger] old(
                                    self,
                                ).tiles()[q].1.visible);
                            assert(!self.tiles()[q].1.visible);
                            assert(false);
                        }
                    }
                }
                acts
            },
            None => acts,
        }
    }

    /// Focus left a window: unfocus it and drop its border; under the policy,
    /// if afterwards nothing is focused and nothing is minimized, hide all.
    fn on_focus_lost(&mut self, window: WindowHandle) -> (acts: Vec<Action>)
        requires
            old(self).wf(),
        ensures
            final(self).wf(),
            focus_lost_post(*old(self), *final(self), window, acts@),
    {
        let mut acts: Vec<Action> = Vec::new();
        match self.find_tile(window) {
            Some(i) => {
                proof {
                    let s = self.registry@;
                    lemma_handles_unique_update(
                        s,
                        i as int,
                        (window, PreviewState { focused: false, bordered: false, ..s[i as int].1 }),
                    );
                }
                self.registry[i].1.focused = false;
                self.registry[i].1.bordered = false;
                let ghost base = old(self).tiles().update(
                    i as int,
                    (
                        window,
                        PreviewState {
                            focused: false,
                            bordered: false,
                            ..old(self).tiles()[i as int].1
                        },
                    ),
                );
                proof {
                    assert(self.registry@ =~= base);
                }
                acts.push(Action::SetBorder { window, on: false });
                if self.store.global.hide_when_no_focus && self.all_unfocused_unminimized() {
                    proof {
                        assert(!self.tiles()[i as int].1.minimized);
                        assert(!old(self).tiles()[i as int].1.minimized);
                        assert forall|q: int|
                            0 <= q < old(self).tiles().len() && q != i as int implies !(
                        #[trigger] old(self).tiles()[q].1.focused) && !old(
                            self,
                        ).tiles()[q].1.minimized by {
                            assert(!self.tiles()[q].1.focused && !self.tiles()[q].1.minimized);
                        }
                    }
                    self.set_all_visibility(false, &mut acts);
                    proof {
                        assert(acts@ =~= seq![Action::SetBorder { window, on: false }]
                            + set_visible_acts(base, false));
                        assert(base == unfocused_tiles(*old(self), window, i as int));
                        assert(hide_all_condition(*old(self), i as int));
                        assert(focus_lost_at(*old(self), *self, window, acts@, i as int));
                    }
                } else {
                    proof {
                        if hide_all_condition(*old(self), i as int) {
                            assert forall|q: int|
                                #![trigger self.tiles()[q]]
                                0 <= q < self.tiles().len() implies !self.tiles()[q].1.focused
                                && !self.tiles()[q].1.minimized by {
                                if q == i as int {
                                } else {
                                    assert(!old(self).tiles()[q].1.focused && !old(
                                        self,
                                    ).tiles()[q].1.minimized);
                                }
                            }
                            assert(false);
                        }
                        assert(acts@ =~= seq![Action::SetBorder { window, on: false }]);
                        assert(base == unfocused_tiles(*old(self), window, i as int));
                        assert(!hide_all_condition(*old(self), i as int));
                        assert(focus_lost_at(*old(self), *self, window, acts@, i as int));
                    }
                }
                acts
            },
            None => acts,
        }
    }

    /// Whether any tile is currently not visible.
    fn any_not_visible(&self) -> (r: bool)
        ensures
            r ==> exists|q: int|
                #![trigger self.tiles()[q]]
                0 <= q < self.tiles().len() && !self.tiles()[q].1.visible,
            !r ==> forall|q: int|
                #![trigger self.tiles()[q]]
                0 <= q < self.tiles().len() ==> self.tiles()[q].1.visible,
    {
        let n = self.registry.len();
        let mut j: usize = 0;
        while j < n
            invariant
                n == self.registry@.len(),
                j <= n,
                forall|k: int| 0 <= k < j ==> self.registry@[k].1.visible,
            decreases n - j,
        {
            if !self.registry[j].1.visible {
                assert(!self.tiles()[j as int].1.visible);
                return true;
            }
            j = j + 1;
        }
        false
    }

    /// Whether every tile is now unfocused and unminimized.
    fn all_unfocused_unminimized(&self) -> (r: bool)
        ensures
            r ==> forall|q: int|
                #![trigger self.tiles()[q]]
                0 <= q < self.tiles().len() ==> !self.tiles()[q].1.focused
                    && !self.tiles()[q].1.minimized,
            !r ==> exists|q: int|
                #![trigger self.tiles()[q]]
                0 <= q < self.tiles().len() && (self.tiles()[q].1.focused
                    || self.tiles()[q].1.minimized),
    {
        let n = self.registry.len();
        let mut j: usize = 0;
        while j < n
            invariant
                n == self.registry@.len(),
                j <= n,
                forall|k: int|
                    0 <= k < j ==> !(self.registry@[k].1.focused)
                        && !(self.registry@[k].1.minimized),
            decreases n - j,
        {
            if self.registry[j].1.focused || self.registry[j].1.minimized {
                assert(self.tiles()[j as int].1.focused || self.tiles()[j as int].1.minimized);
                return false;
            }
            assert(!self.registry@[j as int].1.focused && !self.registry@[j as int].1.minimized);
            j = j + 1;
        }
        true
    }

    /// Set every tile's visible flag, appending one visibility action per
    /// tile in registry order.
    fn set_all_visibility(&mut self, on: bool, acts: &mut Vec<Action>)
        requires
            old(self).wf(),
        ensures
            final(self).wf(),
            final(self).tiles() == all_visibility(old(self).tiles(), on),
            final(self).nav() == old(self).nav(),
            final(self).sess() == old(self).sess(),
            final(self).store() == old(self).store(),
            final(self).screen_w() == old(self).screen_w(),
            final(self).screen_h() == old(self).screen_h(),
            final(acts)@ == old(acts)@ + set_visible_acts(old(self).tiles(), on),
    {
        let n = self.registry.len();
        let mut k: usize = 0;
        while k < n
            invariant
                old(self).wf(),
                n == self.registry@.len(),
                old(self).tiles().len() == n,
                k <= n,
                self.cycle == old(self).cycle,
                self.session == old(self).session,
                self.store == old(self).store,
                self.screen_width == old(self).screen_width,
                self.screen_height == old(self).screen_height,
                forall|q: int| k <= q < n ==> self.registry@[q] == old(self).tiles()[q],
                forall|q: int|
                    0 <= q < k ==> self.registry@[q] == (
                        old(self).tiles()[q].0,
                        PreviewState { visible: on, ..old(self).tiles()[q].1 },
                    ),
                acts@ == old(acts)@ + set_visible_acts(old(self).tiles().take(k as int), on),
            decreases n - k,
        {
            let w = self.registry[k].0;
            self.registry[k].1.visible = on;
            acts.push(Action::SetVisible { window: w, on });
            proof {
                assert(old(self).tiles().take(k as int + 1).drop_last() =~= old(
                    self,
                ).tiles().take(k as int));
                assert(set_visible_acts(old(self).tiles().take(k as int + 1), on) =~= set_visible_acts(
                    old(self).tiles().take(k as int),
                    on,
                ).push(Action::SetVisible { window: old(self).tiles()[k as int].0, on }));
            }
            k = k + 1;
        }
        proof {
            assert(old(self).tiles().take(n as int) =~= old(self).tiles());
            assert(self.registry@ =~= all_visibility(old(self).tiles(), on));
            assert forall|a: int, b: int|
                0 <= a < b < self.registry@.len() implies self.registry@[a].0
                != self.registry@[b].0 by {
                assert(self.registry@[a].0 == old(self).tiles()[a].0);
                assert(self.registry@[b].0 == old(self).tiles()[b].0);
            }
        }
    }

    /// A pointer button was released: the first dragging tile under the
    /// pointer ends its drag; an exact click raises and focuses its window.
    fn on_button_up(&mut self, x: i16, y: i16, button: u8) -> (acts: Vec<Action>)
        requires
            old(self).wf(),
        ensures
            final(self).wf(),
            button_up_post(*old(self), *final(self), x, y, button, acts@),
    {
        let j = match self.find_dragging_at(x, y) {
            None => {
                return Vec::new();
            },
            Some(j) => j,
        };
        let ghost pre = *old(self);
        let w = self.registry[j].0;
        let name = self.registry[j].1.character_name.clone();
        let tx = self.registry[j].1.x;
        let ty = self.registry[j].1.y;
        let tw = self.registry[j].1.width;
        let th = self.registry[j].1.height;
        let ds = self.registry[j].1.drag_start;
        let click = button == 1 && ds.0 == x && ds.1 == y;
        let named = !name.as_str().is_empty();
        proof {
            let s = self.registry@;
            lemma_handles_unique_update(
                s,
                j as int,
                (w, PreviewState { dragging: false, ..s[j as int].1 }),
            );
        }
        self.registry[j].1.dragging = false;
        if named {
            let _ = self.store.update_position(name.as_str(), tx, ty, tw, th);
        } else {
            self.session.update_window_position(w, tx, ty);
        }
        let mut acts: Vec<Action> = Vec::new();
        if click {
            acts.push(Action::RaiseAndFocus { window: w });
            if named {
                let rr = self.cycle.set_current(name.as_str());
                proof {
                    assert(crate::cycle::set_current_post(
                        pre.nav(),
                        self.nav(),
                        pre.tiles()[j as int].1.character_name@,
                        rr,
                    ));
                }
            }
        }
        if named {
            acts.push(
                Action::SaveCharacterSettings { name, x: tx, y: ty, width: tw, height: th },
            );
        }
        proof {
            let t = pre.tiles()[j as int].1;
            assert(self.tiles() =~= pre.tiles().update(
                j as int,
                (w, PreviewState { dragging: false, ..t }),
            ));
            let click_spec = button == 1 && t.drag_start == (x, y);
            assert(click == click_spec);
            assert(acts@ =~= (if click_spec {
                seq![Action::RaiseAndFocus { window: w }]
            } else {
                Seq::<Action>::empty()
            }) + (if t.character_name@.len() > 0 {
                seq![
                    Action::SaveCharacterSettings {
                        name: t.character_name,
                        x: t.x,
                        y: t.y,
                        width: t.width,
                        height: t.height,
                    },
                ]
            } else {
                Seq::<Action>::empty()
            }));
            assert(button_up_at(pre, *self, x, y, button, acts@, j as int));
        }
        acts
    }

    /// The pointer moved: the first dragging tile under the pointer follows
    /// the pointer delta, with per-axis snapping.
    fn on_motion(&mut self, x: i16, y: i16) -> (acts: Vec<Action>)
        requires
            old(self).wf(),
        ensures
            final(self).wf(),
            motion_post(*old(self), *final(self), x, y, acts@),
    {
        let j = match self.find_dragging_at(x, y) {
            None => {
                return Vec::new();
            },
            Some(j) => j,
        };
        let ghost pre = *old(self);
        let w = self.registry[j].0;
        let tw = self.registry[j].1.width;
        let th = self.registry[j].1.height;
        let win_start = self.registry[j].1.win_start;
        let drag_start = self.registry[j].1.drag_start;
        let raw_x = crate::snap::drag_coordinate(win_start.0, drag_start.0, x);
        let raw_y = crate::snap::drag_coordinate(win_start.1, drag_start.1, y);
        let threshold = self.store.global.snap_threshold;
        let x_cands = self.build_x_cands(j, tw);
        let y_cands = self.build_y_cands(j, th);
        let nx = clamp_to_i16(crate::snap::snap_coordinate(raw_x, &x_cands, threshold));
        let ny = clamp_to_i16(crate::snap::snap_coordinate(raw_y, &y_cands, threshold));
        proof {
            let s = self.registry@;
            lemma_handles_unique_update(
                s,
                j as int,
                (w, PreviewState { x: nx, y: ny, ..s[j as int].1 }),
            );
        }
        self.registry[j].1.x = nx;
        self.registry[j].1.y = ny;
        let mut acts: Vec<Action> = Vec::new();
        acts.push(Action::Reposition { window: w, x: nx, y: ny });
        proof {
            let t = pre.tiles()[j as int].1;
            assert(self.tiles() =~= pre.tiles().update(
                j as int,
                (w, PreviewState { x: nx, y: ny, ..t }),
            ));
            assert(acts@ =~= seq![Action::Reposition { window: w, x: nx, y: ny }]);
            assert(motion_at(pre, *self, x, y, acts@, j as int));
        }
        acts
    }

    /// Index of the first dragging tile whose bounds contain the pointer.
    fn find_dragging_at(&self, x: i16, y: i16) -> (r: Option<usize>)
        ensures
            match r {
                Some(j) => {
                    &&& j < self.tiles().len()
                    &&& self.tiles()[j as int].1.dragging
                    &&& contains_point(self.tiles()[j as int].1, x, y)
                    &&& forall|k: int|
                        0 <= k < j ==> !(self.tiles()[k].1.dragging && contains_point(
                            self.tiles()[k].1,
                            x,
                            y,
                        ))
                },
                None => forall|k: int|
                    0 <= k < self.tiles().len() ==> !((#[trigger] self.tiles()[k].1.dragging)
                        && contains_point(self.tiles()[k].1, x, y)),
            },
    {
        let n = self.registry.len();
        let mut j: usize = 0;
        while j < n
            invariant
                n == self.registry@.len(),
                j <= n,
                forall|k: int|
                    0 <= k < j ==> !(self.registry@[k].1.dragging && contains_point(
                        self.registry@[k].1,
                        x,
                        y,
                    )),
            decreases n - j,
        {
            let hit = self.registry[j].1.dragging && {
                let t = &self.registry[j].1;
                x as i32 >= t.x as i32 && (x as i32) < t.x as i32 + t.width as i32 && y as i32
                    >= t.y as i32 && (y as i32) < t.y as i32 + t.height as i32
            };
            if hit {
                return Some(j);
            }
            j = j + 1;
        }
        None
    }

    /// The horizontal snap candidates for the tile at index `j`.
    fn build_x_cands(&self, j: usize, width: u16) -> (r: Vec<i32>)
        requires
            j < self.tiles().len(),
        ensures
            r@.map_values(|c: i32| c as int) == x_snap_cands(
                self.tiles(),
                j as int,
                width,
                self.screen_w(),
            ),
    {
        let mut cands: Vec<i32> = Vec::new();
        cands.push(0);
        cands.push(self.screen_width as i32 - width as i32);
        let n = self.registry.len();
        let mut k: usize = 0;
        while k < n
            invariant
                n == self.registry@.len(),
                k <= n,
                j < n,
                cands@.map_values(|c: i32| c as int) =~= seq![
                    0,
                    self.screen_w() - width,
                ] + x_peer_cands(self.tiles().take(k as int), j as int, width),
            decreases n - k,
        {
            proof {
                assert(self.tiles().take(k as int + 1).drop_last() =~= self.tiles().take(k as int));
                assert(self.tiles().take(k as int + 1).last() == self.tiles()[k as int]);
            }
            let ghost cands0 = cands@;
            if k != j && self.registry[k].1.visible {
                let p = &self.registry[k].1;
                cands.push(p.x as i32);
                cands.push(p.x as i32 + p.width as i32);
                cands.push(p.x as i32 - width as i32);
                cands.push(p.x as i32 + p.width as i32 - width as i32);
                proof {
                    let t = self.tiles()[k as int].1;
                    assert(x_peer_cands(self.tiles().take(k as int + 1), j as int, width)
                        == x_peer_cands(self.tiles().take(k as int), j as int, width) + seq![
                        t.x as int,
                        t.x + t.width,
                        t.x - width,
                        t.x + t.width - width,
                    ]);
                    assert(cands@.map_values(|c: i32| c as int) =~= cands0.map_values(
                        |c: i32| c as int,
                    ) + seq![t.x as int, t.x + t.width, t.x - width, t.x + t.width - width]);
                }
            } else {
                proof {
                    assert(x_peer_cands(self.tiles().take(k as int + 1), j as int, width)
                        == x_peer_cands(self.tiles().take(k as int), j as int, width));
                }
            }
            proof {
                assert(cands@.map_values(|c: i32| c as int) =~= seq![
                    0,
                    self.screen_w() - width,
                ] + x_peer_cands(self.tiles().take(k as int + 1), j as int, width));
            }
            k = k + 1;
        }
        proof {
            assert(self.tiles().take(n as int) =~= self.tiles());
        }
        cands
    }

    /// The vertical snap candidates for the tile at index `j`.
    fn build_y_cands(&self, j: usize, height: u16) -> (r: Vec<i32>)
        requires
            j < self.tiles().len(),
        ensures
            r@.map_values(|c: i32| c as int) == y_snap_cands(
                self.tiles(),
                j as int,
                height,
                self.screen_h(),
            ),
    {
        let mut cands: Vec<i32> = Vec::new();
        cands.push(0);
        cands.push(self.screen_height as i32 - height as i32);
        let n = self.registry.len();
        let mut k: usize = 0;
        while k < n
            invariant
                n == self.registry@.len(),
                k <= n,
                j < n,
                cands@.map_values(|c: i32| c as int) =~= seq![
                    0,
                    self.screen_h() - height,
                ] + y_peer_cands(self.tiles().take(k as int), j as int, height),
            decreases n - k,
        {
            proof {
                assert(self.tiles().take(k as int + 1).drop_last() =~= self.tiles().take(k as int));
                assert(self.tiles().take(k as int + 1).last() == self.tiles()[k as int]);
            }
            let ghost cands0 = cands@;
            if k != j && self.registry[k].1.visible {
                let p = &self.registry[k].1;
                cands.push(p.y as i32);
                cands.push(p.y as i32 + p.height as i32);
                cands.push(p.y as i32 - height as i32);
                cands.push(p.y as i32 + p.height as i32 - height as i32);
                proof {
                    let t = self.tiles()[k as int].1;
                    assert(y_peer_cands(self.tiles().take(k as int + 1), j as int, height)
                        == y_peer_cands(self.tiles().take(k as int), j as int, height) + seq![
                        t.y as int,
                        t.y + t.height,
                        t.y - height,
                        t.y + t.height - height,
                    ]);
                    assert(cands@.map_values(|c: i32| c as int) =~= cands0.map_values(
                        |c: i32| c as int,
                    ) + seq![t.y as int, t.y + t.height, t.y - height, t.y + t.height - height]);
                }
            } else {
                proof {
                    assert(y_peer_cands(self.tiles().take(k as int + 1), j as int, height)
                        == y_peer_cands(self.tiles().take(k as int), j as int, height));
                }
            }
            proof {
                assert(cands@.map_values(|c: i32| c as int) =~= seq![
                    0,
                    self.screen_h() - height,
                ] + y_peer_cands(self.tiles().take(k as int + 1), j as int, height));
            }
            k = k + 1;
        }
        proof {
            assert(self.tiles().take(n as int) =~= self.tiles());
        }
        cands
    }

    /// Index of the registry entry tracking this window, if any.
    fn find_tile(&self, window: WindowHandle) -> (r: Option<usize>)
        ensures
            match r {
                Some(i) => i < self.tiles().len() && self.tiles()[i as int].0 == window,
                None => !registered(self.tiles(), window),
            },
    {
        let n = self.registry.len();
        let mut i: usize = 0;
        while i < n
            invariant
                n == self.registry@.len(),
                i <= n,
                forall|k: int| 0 <= k < i ==> self.registry@[k].0 != window,
            decreases n - i,
        {
            if self.registry[i].0 == window {
                return Some(i);
            }
            i = i + 1;
        }
        None
    }
}

/// Everything but the registry is unchanged.
pub open spec fn rest_unchanged(pre: Engine, post: Engine) -> bool {
    &&& post.nav() == pre.nav()
    &&& post.sess() == pre.sess()
    &&& post.store() == pre.store()
    &&& post.screen_w() == pre.screen_w()
    &&& post.screen_h() == pre.screen_h()
}

/// The whole engine is unchanged.
pub open spec fn engine_unchanged(pre: Engine, post: Engine) -> bool {
    &&& post.tiles() == pre.tiles()
    &&& rest_unchanged(pre, post)
}

/// The transition for a window-destroyed event: the window's registry entry
/// (if any) is dropped and its preview destroyed, and the navigator entry
/// keyed by this window is removed, which keeps the cursor valid.
pub open spec fn destroyed_post(
    pre: Engine,
    post: Engine,
    window: WindowHandle,
    acts: Seq<Action>,
) -> bool {
    &&& remove_window_post(pre.nav(), post.nav(), window)
    &&& post.sess() == pre.sess()
    &&& post.store() == pre.store()
    &&& post.screen_w() == pre.screen_w()
    &&& post.screen_h() == pre.screen_h()
    &&& if registered(pre.tiles(), window) {
        exists|i: int|
            {
                &&& 0 <= i < pre.tiles().len()
                &&& #[trigger] pre.tiles()[i].0 == window
                &&& post.tiles() == pre.tiles().remove(i)
                &&& acts == seq![Action::DestroyPreview { window }]
            }
    } else {
        post.tiles() == pre.tiles() && acts == Seq::<Action>::empty()
    }
}

/// The transition for a visibility-state event: hidden = true marks the
/// window's tile minimized; anything else is a no-op.
pub open spec fn visibility_post(
    pre: Engine,
    post: Engine,
    window: WindowHandle,
    hidden: bool,
    acts: Seq<Action>,
) -> bool {
    &&& rest_unchanged(pre, post)
    &&& if hidden && registered(pre.tiles(), window) {
        exists|i: int|
            {
                &&& 0 <= i < pre.tiles().len()
                &&& #[trigger] pre.tiles()[i].0 == window
                &&& post.tiles() == pre.tiles().update(
                    i,
                    (window, PreviewState { minimized: true, ..pre.tiles()[i].1 }),
                )
                &&& acts == seq![Action::SetMinimized { window }]
            }
    } else {
        post.tiles() == pre.tiles() && acts == Seq::<Action>::empty()
    }
}

/// The response to a damage event: the first tile whose rendering handle
/// matches is redrawn; the state never changes.
pub open spec fn damage_acts(
    tiles: Seq<(WindowHandle, PreviewState)>,
    damage: u32,
    acts: Seq<Action>,
) -> bool {
    if exists|j: int| 0 <= j < tiles.len() && #[trigger] tiles[j].1.damage == damage {
        exists|j: int|
            {
                &&& 0 <= j < tiles.len()
                &&& #[trigger] tiles[j].1.damage == damage
                &&& (forall|k: int| 0 <= k < j ==> tiles[k].1.damage != damage)
                &&& acts == seq![Action::RedrawDamaged { window: tiles[j].0 }]
            }
    } else {
        acts == Seq::<Action>::empty()
    }
}

/// The transition for a pointer-button-down event: the first visible tile
/// whose bounds contain the pointer begins dragging, capturing the pointer
/// start and its own current position; with no such tile nothing happens.
pub open spec fn button_down_post(pre: Engine, post: Engine, x: i16, y: i16) -> bool {
    &&& rest_unchanged(pre, post)
    &&& if exists|j: int|
        0 <= j < pre.tiles().len() && (#[trigger] pre.tiles()[j].1.visible) && contains_point(
            pre.tiles()[j].1,
            x,
            y,
        ) {
        exists|j: int|
            {
                &&& 0 <= j < pre.tiles().len()
                &&& (#[trigger] pre.tiles()[j].1.visible)
                &&& contains_point(pre.tiles()[j].1, x, y)
                &&& (forall|k: int|
                    0 <= k < j ==> !(pre.tiles()[k].1.visible && contains_point(
                        pre.tiles()[k].1,
                        x,
                        y,
                    )))
                &&& post.tiles() == pre.tiles().update(
                    j,
                    (
                        pre.tiles()[j].0,
                        PreviewState {
                            dragging: true,
                            drag_start: (x, y),
                            win_start: (pre.tiles()[j].1.x, pre.tiles()[j].1.y),
                            ..pre.tiles()[j].1
                        },
                    ),
                )
            }
    } else {
        post.tiles() == pre.tiles()
    }
}

/// Every tile with its visible flag set to `on`.
pub open spec fn all_visibility(tiles: Seq<(WindowHandle, PreviewState)>, on: bool) -> Seq<
    (WindowHandle, PreviewState),
> {
    tiles.map_values(|p: (WindowHandle, PreviewState)| (p.0, PreviewState { visible: on, ..p.1 }))
}

/// One visibility action per tile, in registry order.
pub open spec fn set_visible_acts(tiles: Seq<(WindowHandle, PreviewState)>, on: bool) -> Seq<
    Action,
> {
    tiles.map_values(|p: (WindowHandle, PreviewState)| Action::SetVisible { window: p.0, on })
}

/// The transition for a focus-gained event: the window's tile is unminimized,
/// marked focused and gets a border; under the hide-when-unfocused policy, if
/// any tile is currently not visible, every tile is made visible. Untracked
/// handles are a no-op.
pub open spec fn focus_gained_post(
    pre: Engine,
    post: Engine,
    window: WindowHandle,
    acts: Seq<Action>,
) -> bool {
    &&& rest_unchanged(pre, post)
    &&& if registered(pre.tiles(), window) {
        exists|i: int|
            {
                &&& 0 <= i < pre.tiles().len()
                &&& #[trigger] pre.tiles()[i].0 == window
                &&& {
                    let base = pre.tiles().update(
                        i,
                        (
                            window,
                            PreviewState {
                                minimized: false,
                                focused: true,
                                bordered: true,
                                ..pre.tiles()[i].1
                            },
                        ),
                    );
                    if pre.store().global.hide_when_no_focus && (exists|q: int|
                        0 <= q < pre.tiles().len() && !(#[trigger] pre.tiles()[q].1.visible)) {
                        &&& post.tiles() == all_visibility(base, true)
                        &&& acts == seq![Action::SetBorder { window, on: true }] + set_visible_acts(
                            base,
                            true,
                        )
                    } else {
                        &&& post.tiles() == base
                        &&& acts == seq![Action::SetBorder { window, on: true }]
                    }
                }
            }
    } else {
        post.tiles() == pre.tiles() && acts == Seq::<Action>::empty()
    }
}

/// After unfocusing the tile at index `i`, nothing is focused and nothing is
/// minimized, so the hide-when-unfocused policy hides every tile.
pub open spec fn hide_all_condition(pre: Engine, i: int) -> bool {
    &&& pre.store().global.hide_when_no_focus
    &&& !pre.tiles()[i].1.minimized
    &&& forall|q: int|
        #![trigger pre.tiles()[q]]
        0 <= q < pre.tiles().len() && q != i ==> !pre.tiles()[q].1.focused
            && !pre.tiles()[q].1.minimized
}

/// The tile at index `i` with its focus and border dropped.
pub open spec fn unfocused_tiles(pre: Engine, window: WindowHandle, i: int) -> Seq<
    (WindowHandle, PreviewState),
> {
    pre.tiles().update(
        i,
        (window, PreviewState { focused: false, bordered: false, ..pre.tiles()[i].1 }),
    )
}

/// The focus-lost transition, witnessed at registry index `i`.
pub open spec fn focus_lost_at(
    pre: Engine,
    post: Engine,
    window: WindowHandle,
    acts: Seq<Action>,
    i: int,
) -> bool {
    &&& 0 <= i < pre.tiles().len()
    &&& pre.tiles()[i].0 == window
    &&& (hide_all_condition(pre, i) ==> post.tiles() == all_visibility(
        unfocused_tiles(pre, window, i),
        false,
    ) && acts == seq![Action::SetBorder { window, on: false }] + set_visible_acts(
        unfocused_tiles(pre, window, i),
        false,
    ))
    &&& (!hide_all_condition(pre, i) ==> post.tiles() == unfocused_tiles(pre, window, i) && acts
        == seq![Action::SetBorder { window, on: false }])
}

/// The transition for a focus-lost event: the window's tile is unfocused and
/// loses its border; under the hide-when-unfocused policy, if afterwards no
/// tile is focused and none is minimized, every tile is hidden (minimized
/// tiles block the hide). Untracked handles are a no-op.
pub open spec fn focus_lost_post(
    pre: Engine,
    post: Engine,
    window: WindowHandle,
    acts: Seq<Action>,
) -> bool {
    &&& rest_unchanged(pre, post)
    &&& if registered(pre.tiles(), window) {
        exists|i: int| focus_lost_at(pre, post, window, acts, i)
    } else {
        post.tiles() == pre.tiles() && acts == Seq::<Action>::empty()
    }
}

/// The dimensions a new character's tile starts with: its persisted
/// dimensions where they are recorded and non-zero, the configured defaults
/// otherwise.
pub open spec fn initial_dimensions(store: PersistentState, name: Seq<char>) -> (u16, u16) {
    let chars = store.character_positions.view();
    if name.len() > 0 && chars.contains_key(name) {
        (
            if chars[name].width > 0 {
                chars[name].width
            } else {
                store.global.default_width
            },
            if chars[name].height > 0 {
                chars[name].height
            } else {
                store.global.default_height
            },
        )
    } else {
        (store.global.default_width, store.global.default_height)
    }
}

/// The centered coordinate of a tile of the given extent on a screen.
pub open spec fn centered(screen: u16, extent: u16) -> i16 {
    if screen >= extent {
        (((screen - extent) / 2) as u16) as i16
    } else {
        0
    }
}

/// The position a new tile starts at: what the resolver finds, else centered.
pub open spec fn initial_position(
    store: PersistentState,
    sess: SavedState,
    name: Seq<char>,
    window: WindowHandle,
    screen_w: u16,
    screen_h: u16,
    dims: (u16, u16),
) -> (i16, i16) {
    match SavedState::resolved_position(
        store.character_positions.view(),
        sess.positions(),
        sess.inherit(),
        name,
        window,
    ) {
        Some(p) => p,
        None => (centered(screen_w, dims.0), centered(screen_h, dims.1)),
    }
}

/// A freshly created preview record: visible, unfocused, not dragging.
pub open spec fn new_tile(name: String, pos: (i16, i16), dims: (u16, u16), damage: u32) -> PreviewState {
    PreviewState {
        character_name: name,
        x: pos.0,
        y: pos.1,
        width: dims.0,
        height: dims.1,
        dragging: false,
        drag_start: (0, 0),
        win_start: (0, 0),
        visible: true,
        focused: false,
        minimized: false,
        bordered: false,
        damage,
    }
}

/// The transition for a window-created event. A window outside the tracked
/// family (no probe name) or one already registered is a no-op. Otherwise the
/// initial position is resolved from persisted and session data (centered as
/// the fallback), the record enters the registry, a non-empty character name
/// enters the cycle navigator, and the collaborator is asked to build the
/// preview tile.
pub open spec fn created_post(
    pre: Engine,
    post: Engine,
    window: WindowHandle,
    name: Option<String>,
    damage: u32,
    acts: Seq<Action>,
) -> bool {
    match name {
        None => engine_unchanged(pre, post) && acts == Seq::<Action>::empty(),
        Some(nm) => if registered(pre.tiles(), window) {
            engine_unchanged(pre, post) && acts == Seq::<Action>::empty()
        } else {
            let dims = initial_dimensions(pre.store(), nm@);
            let pos = initial_position(
                pre.store(),
                pre.sess(),
                nm@,
                window,
                pre.screen_w(),
                pre.screen_h(),
                dims,
            );
            &&& post.tiles() == pre.tiles().push((window, new_tile(nm, pos, dims, damage)))
            &&& (nm@.len() > 0 ==> add_window_post(pre.nav(), post.nav(), nm@, window))
            &&& (nm@.len() == 0 ==> post.nav() == pre.nav())
            &&& post.sess() == pre.sess()
            &&& post.store() == pre.store()
            &&& post.screen_w() == pre.screen_w()
            &&& post.screen_h() == pre.screen_h()
            &&& acts == seq![
                Action::CreatePreview {
                    window,
                    name: nm,
                    x: pos.0,
                    y: pos.1,
                    width: dims.0,
                    height: dims.1,
                },
            ]
        },
    }
}

/// Where a renamed window's tile moves: to the new name's persisted position,
/// if the (just updated) records hold one; otherwise it stays.
pub open spec fn moved_target(
    chars: Map<Seq<char>, CharacterSettings>,
    name: Seq<char>,
) -> Option<(i16, i16)> {
    if name.len() > 0 && chars.contains_key(name) {
        Some((chars[name].x, chars[name].y))
    } else {
        None
    }
}

/// The name-changed transition for an already registered window, witnessed at
/// registry index `i`: the outgoing name's geometry is snapshotted into the
/// persisted records (and saved), the tile is relabeled in place, the
/// navigator reattaches the window to the new name (an empty name only
/// detaches), and the tile moves to the new name's persisted position if one
/// is recorded.
pub open spec fn name_changed_at(
    pre: Engine,
    post: Engine,
    window: WindowHandle,
    nm: String,
    acts: Seq<Action>,
    i: int,
) -> bool {
    &&& 0 <= i < pre.tiles().len()
    &&& pre.tiles()[i].0 == window
    &&& {
        let t = pre.tiles()[i].1;
        let old_name = t.character_name;
        let moved = moved_target(post.store().character_positions.view(), nm@);
        &&& (old_name@.len() > 0 ==> post.store().character_positions.view()
            == pre.store().character_positions.view().insert(
            old_name@,
            CharacterSettings { x: t.x, y: t.y, width: t.width, height: t.height },
        ))
        &&& (old_name@.len() == 0 ==> post.store().character_positions.view()
            == pre.store().character_positions.view())
        &&& post.store().global == pre.store().global
        &&& post.tiles() == pre.tiles().update(
            i,
            (
                window,
                PreviewState {
                    character_name: nm,
                    x: match moved {
                        Some(p) => p.0,
                        None => t.x,
                    },
                    y: match moved {
                        Some(p) => p.1,
                        None => t.y,
                    },
                    ..t
                },
            ),
        )
        &&& (nm@.len() > 0 ==> crate::cycle::update_character_post(
            pre.nav(),
            post.nav(),
            window,
            nm@,
        ))
        &&& (nm@.len() == 0 ==> remove_window_post(pre.nav(), post.nav(), window))
        &&& post.sess() == pre.sess()
        &&& post.screen_w() == pre.screen_w()
        &&& post.screen_h() == pre.screen_h()
        &&& acts == seq![Action::UpdateLabel { window, name: nm }] + (if old_name@.len() > 0 {
            seq![
                Action::SaveCharacterSettings {
                    name: old_name,
                    x: t.x,
                    y: t.y,
                    width: t.width,
                    height: t.height,
                },
            ]
        } else {
            Seq::<Action>::empty()
        }) + (match moved {
            Some(p) => seq![Action::Reposition { window, x: p.0, y: p.1 }],
            None => Seq::<Action>::empty(),
        })
    }
}

/// The transition for a name-changed event: not in the tracked family is a
/// no-op; an untracked window behaves as if it had just been created; a
/// registered window is relabeled and reattached in place.
pub open spec fn name_changed_post(
    pre: Engine,
    post: Engine,
    window: WindowHandle,
    name: Option<String>,
    damage: u32,
    acts: Seq<Action>,
) -> bool {
    match name {
        None => engine_unchanged(pre, post) && acts == Seq::<Action>::empty(),
        Some(nm) => if !registered(pre.tiles(), window) {
            created_post(pre, post, window, Some(nm), damage, acts)
        } else {
            exists|i: int| name_changed_at(pre, post, window, nm, acts, i)
        },
    }
}

/// The button-up transition for the first dragging tile under the pointer,
/// witnessed at registry index `j`: the drag ends and the final geometry is
/// persisted — under the character name when there is one, into the session
/// memory otherwise. A primary-button release exactly at the drag-start point
/// is a click: the window is raised and focused and becomes the cycle's
/// current entry.
pub open spec fn button_up_at(
    pre: Engine,
    post: Engine,
    x: i16,
    y: i16,
    button: u8,
    acts: Seq<Action>,
    j: int,
) -> bool {
    &&& 0 <= j < pre.tiles().len()
    &&& pre.tiles()[j].1.dragging
    &&& contains_point(pre.tiles()[j].1, x, y)
    &&& (forall|k: int|
        0 <= k < j ==> !(pre.tiles()[k].1.dragging && contains_point(pre.tiles()[k].1, x, y)))
    &&& {
        let w = pre.tiles()[j].0;
        let t = pre.tiles()[j].1;
        let click = button == 1 && t.drag_start == (x, y);
        let named = t.character_name@.len() > 0;
        &&& post.tiles() == pre.tiles().update(j, (w, PreviewState { dragging: false, ..t }))
        &&& (named ==> {
            &&& post.store().character_positions.view()
                == pre.store().character_positions.view().insert(
                t.character_name@,
                CharacterSettings { x: t.x, y: t.y, width: t.width, height: t.height },
            )
            &&& post.store().global == pre.store().global
            &&& post.sess() == pre.sess()
        })
        &&& (!named ==> {
            &&& post.store() == pre.store()
            &&& post.sess().positions() == pre.sess().positions().insert(w, (t.x, t.y))
            &&& post.sess().inherit() == pre.sess().inherit()
        })
        &&& (click && named ==> exists|rr: bool|
            crate::cycle::set_current_post(pre.nav(), post.nav(), t.character_name@, rr))
        &&& (!(click && named) ==> post.nav() == pre.nav())
        &&& post.screen_w() == pre.screen_w()
        &&& post.screen_h() == pre.screen_h()
        &&& acts == (if click {
            seq![Action::RaiseAndFocus { window: w }]
        } else {
            Seq::<Action>::empty()
        }) + (if named {
            seq![
                Action::SaveCharacterSettings {
                    name: t.character_name,
                    x: t.x,
                    y: t.y,
                    width: t.width,
                    height: t.height,
                },
            ]
        } else {
            Seq::<Action>::empty()
        })
    }
}

/// The transition for a pointer-button-up event: the first dragging tile
/// whose bounds contain the pointer ends its drag (see `button_up_at`); with
/// no such tile nothing happens.
pub open spec fn button_up_post(
    pre: Engine,
    post: Engine,
    x: i16,
    y: i16,
    button: u8,
    acts: Seq<Action>,
) -> bool {
    if exists|j: int|
        0 <= j < pre.tiles().len() && (#[trigger] pre.tiles()[j].1.dragging) && contains_point(
            pre.tiles()[j].1,
            x,
            y,
        ) {
        exists|j: int| button_up_at(pre, post, x, y, button, acts, j)
    } else {
        engine_unchanged(pre, post) && acts == Seq::<Action>::empty()
    }
}

/// The tile-edge and screen-edge snap candidates of the horizontal axis for
/// a tile of the given width: the left screen edge, the right screen edge,
/// and, for every other visible tile, alignment of either vertical edge with
/// either of its vertical edges.
pub open spec fn x_peer_cands(
    tiles: Seq<(WindowHandle, PreviewState)>,
    skip: int,
    width: u16,
) -> Seq<int>
    decreases tiles.len(),
{
    if tiles.len() == 0 {
        Seq::empty()
    } else {
        let rest = x_peer_cands(tiles.drop_last(), skip, width);
        let idx = tiles.len() - 1;
        let p = tiles.last().1;
        if idx != skip && p.visible {
            rest + seq![
                p.x as int,
                p.x + p.width,
                p.x - width,
                p.x + p.width - width,
            ]
        } else {
            rest
        }
    }
}

/// The vertical-axis snap candidates (see `x_peer_cands`).
pub open spec fn y_peer_cands(
    tiles: Seq<(WindowHandle, PreviewState)>,
    skip: int,
    height: u16,
) -> Seq<int>
    decreases tiles.len(),
{
    if tiles.len() == 0 {
        Seq::empty()
    } else {
        let rest = y_peer_cands(tiles.drop_last(), skip, height);
        let idx = tiles.len() - 1;
        let p = tiles.last().1;
        if idx != skip && p.visible {
            rest + seq![
                p.y as int,
                p.y + p.height,
                p.y - height,
                p.y + p.height - height,
            ]
        } else {
            rest
        }
    }
}

/// All horizontal snap candidates: screen bounds first, then peer edges.
pub open spec fn x_snap_cands(
    tiles: Seq<(WindowHandle, PreviewState)>,
    skip: int,
    width: u16,
    screen_w: u16,
) -> Seq<int> {
    seq![0, screen_w - width] + x_peer_cands(tiles, skip, width)
}

/// All vertical snap candidates: screen bounds first, then peer edges.
pub open spec fn y_snap_cands(
    tiles: Seq<(WindowHandle, PreviewState)>,
    skip: int,
    height: u16,
    screen_h: u16,
) -> Seq<int> {
    seq![0, screen_h - height] + y_peer_cands(tiles, skip, height)
}

/// The motion transition for the first dragging tile under the pointer,
/// witnessed at registry index `j`: the tile follows the pointer delta from
/// the drag anchors, each axis independently snapped to the nearest candidate
/// within the inclusive snap threshold (a threshold of 0 disables snapping),
/// and the collaborator repositions the preview.
pub open spec fn motion_at(
    pre: Engine,
    post: Engine,
    x: i16,
    y: i16,
    acts: Seq<Action>,
    j: int,
) -> bool {
    &&& 0 <= j < pre.tiles().len()
    &&& pre.tiles()[j].1.dragging
    &&& contains_point(pre.tiles()[j].1, x, y)
    &&& (forall|k: int|
        0 <= k < j ==> !(pre.tiles()[k].1.dragging && contains_point(pre.tiles()[k].1, x, y)))
    &&& {
        let w = pre.tiles()[j].0;
        let t = pre.tiles()[j].1;
        let raw_x = crate::snap::clamp_i16(
            crate::snap::drag_target(t.win_start.0, t.drag_start.0, x),
        );
        let raw_y = crate::snap::clamp_i16(
            crate::snap::drag_target(t.win_start.1, t.drag_start.1, y),
        );
        let threshold = pre.store().global.snap_threshold;
        let nx = crate::snap::clamp_i16(
            crate::snap::snapped(
                raw_x as int,
                x_snap_cands(pre.tiles(), j, t.width, pre.screen_w()),
                threshold as int,
            ),
        );
        let ny = crate::snap::clamp_i16(
            crate::snap::snapped(
                raw_y as int,
                y_snap_cands(pre.tiles(), j, t.height, pre.screen_h()),
                threshold as int,
            ),
        );
        &&& post.tiles() == pre.tiles().update(j, (w, PreviewState { x: nx, y: ny, ..t }))
        &&& rest_unchanged(pre, post)
        &&& acts == seq![Action::Reposition { window: w, x: nx, y: ny }]
    }
}

/// The transition for a pointer-motion event: the first dragging tile whose
/// bounds contain the pointer is repositioned (see `motion_at`); with no such
/// tile nothing happens.
pub open spec fn motion_post(
    pre: Engine,
    post: Engine,
    x: i16,
    y: i16,
    acts: Seq<Action>,
) -> bool {
    if exists|j: int|
        0 <= j < pre.tiles().len() && (#[trigger] pre.tiles()[j].1.dragging) && contains_point(
            pre.tiles()[j].1,
            x,
            y,
        ) {
        exists|j: int| motion_at(pre, post, x, y, acts, j)
    } else {
        engine_unchanged(pre, post) && acts == Seq::<Action>::empty()
    }
}

/// The transition `handle_event` performs for each event, one spec per
/// event kind.
pub open spec fn handle_event_post(
    pre: Engine,
    post: Engine,
    event: WindowEvent,
    acts: Seq<Action>,
) -> bool {
    match event {
        WindowEvent::Created { window, name, damage } => created_post(
            pre,
            post,
            window,
            name,
            damage,
            acts,
        ),
        WindowEvent::Destroyed { window } => destroyed_post(pre, post, window, acts),
        WindowEvent::NameChanged { window, name, damage } => name_changed_post(
            pre,
            post,
            window,
            name,
            damage,
            acts,
        ),
        WindowEvent::VisibilityChanged { window, hidden } => visibility_post(
            pre,
            post,
            window,
            hidden,
            acts,
        ),
        WindowEvent::FocusGained { window } => focus_gained_post(pre, post, window, acts),
        WindowEvent::FocusLost { window } => focus_lost_post(pre, post, window, acts),
        WindowEvent::ButtonDown { x, y } => button_down_post(pre, post, x, y) && acts
            == Seq::<Action>::empty(),
        WindowEvent::ButtonUp { x, y, button } => button_up_post(pre, post, x, y, button, acts),
        WindowEvent::PointerMoved { x, y } => motion_post(pre, post, x, y, acts),
        WindowEvent::DamageNotify { damage } => engine_unchanged(pre, post) && damage_acts(
            pre.tiles(),
            damage,
            acts,
        ),
    }
}

/// Removing an entry keeps registry handles unique.
proof fn lemma_handles_unique_remove(s: Seq<(WindowHandle, PreviewState)>, i: int)
    requires
        handles_unique(s),
        0 <= i < s.len(),
    ensures
        handles_unique(s.remove(i)),
{
    let t = s.remove(i);
    s.remove_ensures(i);
    assert forall|a: int, b: int| 0 <= a < b < t.len() implies t[a].0 != t[b].0 by {
        let sa = if a < i {
            a
        } else {
            a + 1
        };
        let sb = if b < i {
            b
        } else {
            b + 1
        };
        assert(t[a] == s[sa]);
        assert(t[b] == s[sb]);
    }
}

/// Updating an entry in place (same handle) keeps registry handles unique.
proof fn lemma_handles_unique_update(
    s: Seq<(WindowHandle, PreviewState)>,
    i: int,
    p: (WindowHandle, PreviewState),
)
    requires
        handles_unique(s),
        0 <= i < s.len(),
        p.0 == s[i].0,
    ensures
        handles_unique(s.update(i, p)),
{
    let t = s.update(i, p);
    assert forall|a: int, b: int| 0 <= a < b < t.len() implies t[a].0 != t[b].0 by {
        assert(t[a].0 == s[a].0);
        assert(t[b].0 == s[b].0);
    }
}

impl Engine {
    /// A window was destroyed: drop its registry entry and its navigator
    /// entry; stale handles are a no-op.
    fn on_destroyed(&mut self, window: WindowHandle) -> (acts: Vec<Action>)
        requires
            old(self).wf(),
        ensures
            final(self).wf(),
            destroyed_post(*old(self), *final(self), window, acts@),
    {
        let mut acts: Vec<Action> = Vec::new();
        match self.find_tile(window) {
            Some(i) => {
                proof {
                    lemma_handles_unique_remove(self.registry@, i as int);
                }
                let _ = self.registry.remove(i);
                acts.push(Action::DestroyPreview { window });
            },
            None => {},
        }
        self.cycle.remove_window(window);
        acts
    }

    /// A window's visibility state changed: hidden marks its tile minimized.
    fn on_visibility_changed(&mut self, window: WindowHandle, hidden: bool) -> (acts: Vec<Action>)
        requires
            old(self).wf(),
        ensures
            final(self).wf(),
            visibility_post(*old(self), *final(self), window, hidden, acts@),
    {
        let mut acts: Vec<Action> = Vec::new();
        if hidden {
            match self.find_tile(window) {
                Some(i) => {
                    proof {
                        let s = self.registry@;
                        lemma_handles_unique_update(
                            s,
                            i as int,
                            (window, PreviewState { minimized: true, ..s[i as int].1 }),
                        );
                    }
                    self.registry[i].1.minimized = true;
                    acts.push(Action::SetMinimized { window });
                },
                None => {},
            }
        }
        acts
    }

    /// A damage notification arrived: ask for a redraw of the matching tile.
    fn on_damage(&self, damage: u32) -> (acts: Vec<Action>)
        ensures
            damage_acts(self.tiles(), damage, acts@),
    {
        let mut acts: Vec<Action> = Vec::new();
        let n = self.registry.len();
        let mut j: usize = 0;
        while j < n
            invariant
                n == self.registry@.len(),
                j <= n,
                acts@ == Seq::<Action>::empty(),
                forall|k: int| 0 <= k < j ==> self.registry@[k].1.damage != damage,
            decreases n - j,
        {
            if self.registry[j].1.damage == damage {
                acts.push(Action::RedrawDamaged { window: self.registry[j].0 });
                return acts;
            }
            j = j + 1;
        }
        acts
    }

    /// A pointer button went down: the first visible tile under the pointer
    /// begins dragging.
    fn on_button_down(&mut self, x: i16, y: i16)
        requires
            old(self).wf(),
        ensures
            final(self).wf(),
            button_down_post(*old(self), *final(self), x, y),
    {
        let n = self.registry.len();
        let mut j: usize = 0;
        while j < n
            invariant
                old(self).wf(),
                *self == *old(self),
                n == self.registry@.len(),
                j <= n,
                forall|k: int|
                    0 <= k < j ==> !(self.registry@[k].1.visible && contains_point(
                        self.registry@[k].1,
                        x,
                        y,
                    )),
            decreases n - j,
        {
            let hit = self.registry[j].1.visible && {
                let t = &self.registry[j].1;
                x as i32 >= t.x as i32 && (x as i32) < t.x as i32 + t.width as i32 && y as i32
                    >= t.y as i32 && (y as i32) < t.y as i32 + t.height as i32
            };
            if hit {
                proof {
                    let s = self.registry@;
                    let t = s[j as int].1;
                    lemma_handles_unique_update(
                        s,
                        j as int,
                        (
                            s[j as int].0,
                            PreviewState {
                                dragging: true,
                                drag_start: (x, y),
                                win_start: (t.x, t.y),
                                ..t
                            },
                        ),
                    );
                }
                let tx = self.registry[j].1.x;
                let ty = self.registry[j].1.y;
                self.registry[j].1.dragging = true;
                self.registry[j].1.drag_start = (x, y);
                self.registry[j].1.win_start = (tx, ty);
                proof {
                    let s = old(self).tiles();
                    let t = s[j as int].1;
                    assert(contains_point(t, x, y));
                    assert(self.registry@ =~= s.update(
                        j as int,
                        (
                            s[j as int].0,
                            PreviewState {
                                dragging: true,
                                drag_start: (x, y),
                                win_start: (t.x, t.y),
                                ..t
                            },
                        ),
                    ));
                }
                return ;
            }
            j = j + 1;
        }
    }
}

/// Saturate a snapped coordinate into the i16 coordinate range.
fn clamp_to_i16(v: i32) -> (r: i16)
    ensures
        r == crate::snap::clamp_i16(v as int),
{
    if v < -0x8000 {
        -0x8000i16
    } else if v > 0x7FFF {
        0x7FFFi16
    } else {
        v as i16
    }
}

/// The centered coordinate of a tile of the given extent on a screen.
fn centered_coordinate(screen: u16, extent: u16) -> (r: i16)
    ensures
        r == centered(screen, extent),
{
    if screen >= extent {
        ((screen - extent) / 2) as i16
    } else {
        0
    }
}

/// A copy of a list of names.
fn clone_names(names: &Vec<String>) -> (r: Vec<String>)
    ensures
        r@ == names@,
{
    let n = names.len();
    let mut r: Vec<String> = Vec::new();
    let mut i: usize = 0;
    while i < n
        invariant
            n == names@.len(),
            i <= n,
            r@ =~= names@.take(i as int),
        decreases n - i,
    {
        r.push(names[i].clone());
        proof {
            assert(r@ =~= names@.take(i as int + 1));
        }
        i = i + 1;
    }
    proof {
        assert(names@.take(n as int) =~= names@);
    }
    r
}

} // verus!
