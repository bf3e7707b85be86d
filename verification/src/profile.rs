//! Profile-based configuration model: named setting profiles, the manager's
//! selection among them, and the conversion into the engine's flat persistent
//! state. Reading and writing the on-disk form belongs to the surrounding
//! program.

use vstd::prelude::*;

use crate::charmap::CharacterMap;
use crate::settings::GlobalSettings;
use crate::settings::PersistentState;

verus! {

use vstd::string::StringExecFns;

/// One named profile of display settings.
pub struct Profile {
    pub name: String,
    pub opacity_percent: u8,
    pub border_size: u16,
    pub border_enabled: bool,
    /// Border color as a hex string.
    pub border_color: String,
    pub text_x: i16,
    pub text_y: i16,
    /// Label foreground color as a hex string.
    pub text_foreground: String,
    /// Label text size in pixels.
    pub text_size: u16,
    /// Character order for hotkey cycling.
    pub cycle_group: Vec<String>,
    /// Persisted per-character geometry.
    pub character_positions: CharacterMap,
}

/// Settings that apply to every profile.
pub struct SharedSettings {
    pub hide_when_no_focus: bool,
    /// Snap threshold in pixels (0 = disabled).
    pub snap_threshold: u16,
    /// Only cycle via hotkeys while a tracked window is focused.
    pub hotkey_require_eve_focus: bool,
    /// Whether clicking a tile minimizes the other tracked clients.
    pub minimize_clients_on_switch: bool,
    /// Logging verbosity of the daemon.
    pub log_level: String,
}

/// The manager's own state.
pub struct ManagerSettings {
    /// The name of the selected profile.
    pub selected_profile: String,
}

/// The whole profile-based configuration.
pub struct Config {
    pub manager: ManagerSettings,
    pub global: SharedSettings,
    pub profiles: Vec<Profile>,
}

/// Whether some profile carries this name.
pub open spec fn has_profile(profiles: Seq<Profile>, name: Seq<char>) -> bool {
    exists|j: int| 0 <= j < profiles.len() && profiles[j].name@ == name
}

/// The profile the daemon uses: the first one with the selected name, or the
/// first profile when the selected name is absent.
pub open spec fn picked_profile(profiles: Seq<Profile>, name: Seq<char>) -> int
    decreases profiles.len(),
{
    if profiles.len() == 0 {
        0
    } else if profiles[0].name@ == name {
        0
    } else if has_profile(profiles.skip(1), name) {
        1 + picked_profile(profiles.skip(1), name)
    } else {
        0
    }
}

proof fn lemma_picked_profile(profiles: Seq<Profile>, name: Seq<char>)
    requires
        profiles.len() > 0,
    ensures
        0 <= picked_profile(profiles, name) < profiles.len(),
        has_profile(profiles, name) ==> profiles[picked_profile(profiles, name)].name@ == name,
        has_profile(profiles, name) ==> forall|k: int|
            0 <= k < picked_profile(profiles, name) ==> profiles[k].name@ != name,
        !has_profile(profiles, name) ==> picked_profile(profiles, name) == 0,
    decreases profiles.len(),
{
    if profiles[0].name@ == name {
    } else if profiles.len() > 1 && has_profile(profiles.skip(1), name) {
        lemma_picked_profile(profiles.skip(1), name);
        let j = choose|j: int| 0 <= j < profiles.skip(1).len() && profiles.skip(1)[j].name@
            == name;
        assert(profiles[j + 1].name@ == name);
        assert forall|k: int| 0 <= k < picked_profile(profiles, name) implies profiles[k].name@
            != name by {
            if k > 0 {
                assert(profiles.skip(1)[k - 1].name@ != name);
            }
        }
    } else {
        if has_profile(profiles, name) {
            let j = choose|j: int| 0 <= j < profiles.len() && profiles[j].name@ == name;
            assert(j > 0);
            assert(profiles.skip(1)[j - 1].name@ == name);
            assert(has_profile(profiles.skip(1), name));
            assert(profiles.len() > 1);
            assert(false);
        }
    }
}

impl PersistentState {
    /// Extract the selected profile's settings into the engine's flat
    /// persistent state. The configured cycle group becomes the hotkey
    /// order; thumbnail default dimensions take the built-in defaults.
    /// Clamping and environment overrides are the caller's next steps.
    pub fn from_profile_config(config: Config) -> (r: PersistentState)
        requires
            config.profiles@.len() > 0,
            forall|j: int|
                0 <= j < config.profiles@.len()
                    ==> (#[trigger] config.profiles@[j]).character_positions.wf(),
        ensures
            ({
                let p = config.profiles@[picked_profile(
                    config.profiles@,
                    config.manager.selected_profile@,
                )];
                &&& r.wf()
                &&& r.global.opacity_percent == p.opacity_percent
                &&& r.global.border_size == p.border_size
                &&& r.global.border_color_hex == p.border_color
                &&& r.global.text_x == p.text_x
                &&& r.global.text_y == p.text_y
                &&& r.global.text_color_hex == p.text_foreground
                &&& r.global.text_size == p.text_size
                &&& r.global.hide_when_no_focus == config.global.hide_when_no_focus
                &&& r.global.snap_threshold == config.global.snap_threshold
                &&& r.global.default_width == 250
                &&& r.global.default_height == 141
                &&& r.global.hotkey_order == p.cycle_group
                &&& r.global.hotkey_require_eve_focus == config.global.hotkey_require_eve_focus
                &&& r.character_positions == p.character_positions
            }),
    {
        let Config { manager, global, mut profiles } = config;
        let n = profiles.len();
        let mut idx: usize = 0;
        let mut found = false;
        let mut i: usize = 0;
        while i < n && !found
            invariant
                n == profiles@.len(),
                i <= n,
                !found ==> idx == 0,
                !found ==> forall|k: int| 0 <= k < i ==> profiles@[k].name@
                    != manager.selected_profile@,
                found ==> {
                    &&& 0 <= idx < n
                    &&& profiles@[idx as int].name@ == manager.selected_profile@
                    &&& forall|k: int|
                        0 <= k < idx ==> profiles@[k].name@ != manager.selected_profile@
                },
            decreases n - i + if found {
                0int
            } else {
                1int
            },
        {
            if profiles[i].name == manager.selected_profile {
                idx = i;
                found = true;
            } else {
                i = i + 1;
            }
        }
        proof {
            lemma_picked_profile(profiles@, manager.selected_profile@);
            if found {
                assert(has_profile(profiles@, manager.selected_profile@));
                assert(picked_profile(profiles@, manager.selected_profile@) == idx as int);
            } else {
                assert forall|j: int|
                    0 <= j < profiles@.len() implies (#[trigger] profiles@[j]).name@
                    != manager.selected_profile@ by {}
                assert(!has_profile(profiles@, manager.selected_profile@));
            }
        }
        let profile = profiles.remove(idx);
        PersistentState {
            global: GlobalSettings {
                opacity_percent: profile.opacity_percent,
                border_size: profile.border_size,
                border_color_hex: profile.border_color,
                text_x: profile.text_x,
                text_y: profile.text_y,
                text_color_hex: profile.text_foreground,
                text_size: profile.text_size,
                hide_when_no_focus: global.hide_when_no_focus,
                snap_threshold: global.snap_threshold,
                default_width: 250,
                default_height: 141,
                hotkey_order: profile.cycle_group,
                hotkey_require_eve_focus: global.hotkey_require_eve_focus,
            },
            character_positions: profile.character_positions,
        }
    }
}

/// State of the hotkey-order editor: the cycle group as editable text, one
/// character name per line.
pub struct HotkeySettingsState {
    cycle_group_text: String,
}

/// The names joined into editor text, one per line.
pub open spec fn joined_lines(names: Seq<Seq<char>>) -> Seq<char>
    decreases names.len(),
{
    if names.len() == 0 {
        Seq::empty()
    } else if names.len() == 1 {
        names[0]
    } else {
        joined_lines(names.drop_last()) + seq!['\n'] + names.last()
    }
}

impl HotkeySettingsState {
    /// The editor text.
    pub closed spec fn text(&self) -> Seq<char> {
        self.cycle_group_text@
    }

    pub fn new() -> (r: Self)
        ensures
            r.text() == Seq::<char>::empty(),
    {
        Self { cycle_group_text: String::new() }
    }

    /// The editor text buffer.
    pub fn cycle_group_text(&self) -> (r: &String)
        ensures
            r@ == self.text(),
    {
        &self.cycle_group_text
    }

    /// Load the cycle group from a profile into the text buffer, one name
    /// per line.
    pub fn load_from_profile(&mut self, profile: &Profile)
        ensures
            final(self).text() == joined_lines(crate::cycle::names_of(profile.cycle_group@)),
    {
        let mut text = String::new();
        let n = profile.cycle_group.len();
        let mut i: usize = 0;
        while i < n
            invariant
                n == profile.cycle_group@.len(),
                i <= n,
                text@ == joined_lines(crate::cycle::names_of(profile.cycle_group@.take(i as int))),
            decreases n - i,
        {
            if i > 0 {
                proof {
                    reveal_strlit("\n");
                }
                text.append("\n");
            }
            text.append(profile.cycle_group[i].as_str());
            proof {
                reveal_strlit("\n");
                let upto = crate::cycle::names_of(profile.cycle_group@.take(i as int + 1));
                assert(upto.drop_last() =~= crate::cycle::names_of(
                    profile.cycle_group@.take(i as int),
                ));
                assert(upto.last() == profile.cycle_group@[i as int]@);
                if i > 0 {
                    assert(text@ =~= joined_lines(upto.drop_last()) + seq!['\n'] + upto.last());
                } else {
                    assert(upto.len() == 1);
                    assert(text@ =~= upto[0]);
                }
            }
            i = i + 1;
        }
        proof {
            assert(profile.cycle_group@.take(n as int) =~= profile.cycle_group@);
            assert(crate::cycle::names_of(profile.cycle_group@.take(n as int))
                =~= crate::cycle::names_of(profile.cycle_group@));
        }
        self.cycle_group_text = text;
    }
}

impl HotkeySettingsState {
    /// Parse the text buffer back into a profile's cycle group: one name per
    /// line, trimmed, empty lines dropped. Only the cycle group changes.
    pub fn save_to_profile(&self, profile: &mut Profile)
        ensures
            crate::cycle::names_of(final(profile).cycle_group@) == parsed_cycle_group(self.text()),
            final(profile).name == old(profile).name,
            final(profile).opacity_percent == old(profile).opacity_percent,
            final(profile).border_size == old(profile).border_size,
            final(profile).border_enabled == old(profile).border_enabled,
            final(profile).border_color == old(profile).border_color,
            final(profile).text_x == old(profile).text_x,
            final(profile).text_y == old(profile).text_y,
            final(profile).text_foreground == old(profile).text_foreground,
            final(profile).text_size == old(profile).text_size,
            final(profile).character_positions == old(profile).character_positions,
    {
        let text = self.cycle_group_text.as_str();
        let ghost t = self.text();
        let len = text.unicode_len();
        let mut out: Vec<String> = Vec::new();
        let ghost mut done: Seq<Seq<char>> = Seq::empty();
        let mut p: usize = 0;
        let mut finished = false;
        proof {
            reveal_with_fuel(Seq::<Seq<char>>::filter, 1);
            assert(t.skip(0) =~= t);
            assert(Seq::<Seq<char>>::empty() + split_lines(t) =~= split_lines(t));
            assert(done.map_values(|l: Seq<char>| trimmed(l)) =~= Seq::<Seq<char>>::empty());
        }
        while !finished
            invariant
                t == text@,
                len == t.len(),
                p <= len,
                !finished ==> split_lines(t) == done + split_lines(t.skip(p as int)),
                finished ==> split_lines(t) == done,
                crate::cycle::names_of(out@) == done.map_values(|l: Seq<char>| trimmed(l)).filter(
                    |l: Seq<char>| l.len() > 0,
                ),
            decreases len - p + if finished {
                0int
            } else {
                1int
            },
        {
            // Find the end of the current line.
            let mut q: usize = p;
            while q < len && text.get_char(q) != '\n'
                invariant
                    t == text@,
                    len == t.len(),
                    p <= q <= len,
                    forall|m: int| p <= m < q ==> t[m] != '\n',
                decreases len - q,
            {
                q = q + 1;
            }
            proof {
                let suffix = t.skip(p as int);
                lemma_first_nl_determined(suffix, q - p);
                assert(first_nl(suffix) == q - p);
            }
            // Trim the line.
            let mut a: usize = p;
            while a < q && is_ws(text.get_char(a))
                invariant
                    t == text@,
                    len == t.len(),
                    q <= len,
                    p <= a <= q,
                    forall|m: int| p <= m < a ==> is_line_ws(#[trigger] t[m]),
                decreases q - a,
            {
                a = a + 1;
            }
            let mut b: usize = q;
            while b > a && is_ws(text.get_char(b - 1))
                invariant
                    t == text@,
                    len == t.len(),
                    q <= len,
                    a <= b <= q,
                    forall|m: int| b <= m < q ==> is_line_ws(#[trigger] t[m]),
                decreases b,
            {
                b = b - 1;
            }
            let ghost seg = t.subrange(p as int, q as int);
            proof {
                let fronted = seg.skip(a - p);
                lemma_trim_front(seg, a - p);
                lemma_trim_back(fronted, b - a);
                assert(fronted.take(b - a) =~= t.subrange(a as int, b as int));
                assert(trimmed(seg) == t.subrange(a as int, b as int));
            }
            let ghost out0 = out@;
            if a < b {
                let line = String::from_str(text.substring_char(a, b));
                out.push(line);
                proof {
                    assert(trimmed(seg).len() > 0);
                    assert(crate::cycle::names_of(out@) =~= crate::cycle::names_of(out0).push(
                        trimmed(seg),
                    ));
                }
            } else {
                proof {
                    assert(t.subrange(a as int, b as int) =~= Seq::<char>::empty());
                    assert(trimmed(seg).len() == 0);
                }
            }
            proof {
                reveal_with_fuel(Seq::<Seq<char>>::filter, 1);
                let tr = |l: Seq<char>| trimmed(l);
                let keep = |l: Seq<char>| l.len() > 0;
                let mapped = done.push(seg).map_values(tr);
                assert(mapped =~= done.map_values(tr).push(trimmed(seg)));
                assert(mapped.drop_last() =~= done.map_values(tr));
                assert(mapped.last() == trimmed(seg));
                if trimmed(seg).len() > 0 {
                    assert(mapped.filter(keep) == done.map_values(tr).filter(keep).push(
                        trimmed(seg),
                    ));
                } else {
                    assert(mapped.filter(keep) == done.map_values(tr).filter(keep));
                }
                assert(crate::cycle::names_of(out@) == done.push(seg).map_values(tr).filter(keep));
            }
            if q < len {
                proof {
                    let suffix = t.skip(p as int);
                    assert(suffix.take(q - p) =~= seg);
                    assert(split_lines(suffix) == seq![seg] + split_lines(
                        t.skip(p as int).skip(q - p + 1),
                    ));
                    assert(t.skip(p as int).skip(q - p + 1) =~= t.skip(q as int + 1));
                    assert(done.push(seg) + split_lines(t.skip(q as int + 1)) =~= done + (seq![seg]
                        + split_lines(t.skip(q as int + 1))));
                }
                proof {
                    done = done.push(seg);
                }
                p = q + 1;
            } else {
                proof {
                    let suffix = t.skip(p as int);
                    assert(suffix.take(q - p) =~= seg);
                    assert(suffix =~= seg);
                    assert(split_lines(suffix) == seq![seg]);
                    assert(done.push(seg) =~= done + seq![seg]);
                }
                proof {
                    done = done.push(seg);
                }
                finished = true;
            }
        }
        profile.cycle_group = out;
    }
}

/// Whether the character is trimmed line whitespace.
fn is_ws(c: char) -> (r: bool)
    ensures
        r == is_line_ws(c),
{
    c == ' ' || c == '\t' || c == '\r'
}

/// Whitespace trimmed from the ends of an edited line.
pub open spec fn is_line_ws(c: char) -> bool {
    c == ' ' || c == '\t' || c == '\r'
}

/// The line without leading whitespace.
pub open spec fn trim_front(s: Seq<char>) -> Seq<char>
    decreases s.len(),
{
    if s.len() > 0 && is_line_ws(s[0]) {
        trim_front(s.skip(1))
    } else {
        s
    }
}

/// The line without trailing whitespace.
pub open spec fn trim_back(s: Seq<char>) -> Seq<char>
    decreases s.len(),
{
    if s.len() > 0 && is_line_ws(s.last()) {
        trim_back(s.drop_last())
    } else {
        s
    }
}

/// The line without leading or trailing whitespace.
pub open spec fn trimmed(s: Seq<char>) -> Seq<char> {
    trim_back(trim_front(s))
}

/// Offset of the first line break, or the length when there is none.
pub open spec fn first_nl(s: Seq<char>) -> nat
    decreases s.len(),
{
    if s.len() == 0 {
        0
    } else if s[0] == '\n' {
        0
    } else {
        1 + first_nl(s.skip(1))
    }
}

/// The text split at line breaks (the break characters dropped).
pub open spec fn split_lines(s: Seq<char>) -> Seq<Seq<char>>
    decreases s.len(),
{
    let k = first_nl(s);
    if k >= s.len() {
        seq![s]
    } else {
        seq![s.take(k as int)] + split_lines(s.skip(k as int + 1))
    }
}

/// What the editor text denotes: one name per line, trimmed, empty lines
/// dropped.
pub open spec fn parsed_cycle_group(text: Seq<char>) -> Seq<Seq<char>> {
    split_lines(text).map_values(|l: Seq<char>| trimmed(l)).filter(|l: Seq<char>| l.len() > 0)
}

proof fn lemma_first_nl_determined(s: Seq<char>, d: int)
    requires
        0 <= d <= s.len(),
        forall|m: int| 0 <= m < d ==> s[m] != '\n',
        d < s.len() ==> s[d] == '\n',
    ensures
        first_nl(s) == d,
    decreases d,
{
    if d == 0 {
    } else {
        assert(s[0] != '\n');
        lemma_first_nl_determined(s.skip(1), d - 1);
    }
}

proof fn lemma_trim_front(s: Seq<char>, a: int)
    requires
        0 <= a <= s.len(),
        forall|m: int| 0 <= m < a ==> is_line_ws(#[trigger] s[m]),
        a < s.len() ==> !is_line_ws(s[a]),
    ensures
        trim_front(s) == s.skip(a),
    decreases a,
{
    if a == 0 {
        assert(s.skip(0) =~= s);
    } else {
        assert(is_line_ws(s[0]));
        lemma_trim_front(s.skip(1), a - 1);
        assert(s.skip(1).skip(a - 1) =~= s.skip(a));
    }
}

proof fn lemma_trim_back(s: Seq<char>, b: int)
    requires
        0 <= b <= s.len(),
        forall|m: int| b <= m < s.len() ==> is_line_ws(#[trigger] s[m]),
        b > 0 ==> !is_line_ws(s[b - 1]),
    ensures
        trim_back(s) == s.take(b),
    decreases s.len() - b,
{
    if b == s.len() {
        assert(s.take(b) =~= s);
    } else {
        assert(is_line_ws(s.last()));
        lemma_trim_back(s.drop_last(), b);
        assert(s.drop_last().take(b) =~= s.take(b));
    }
}

impl Default for HotkeySettingsState {
    fn default() -> (r: Self)
        ensures
            r.text() == Seq::<char>::empty(),
    {
        Self::new()
    }
}

} // verus!
