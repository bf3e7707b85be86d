//! Persisted engine settings: global display and behavior settings plus the
//! per-character geometry records. Everything here is pure state; reading and
//! writing the on-disk form belongs to the surrounding program.

use vstd::prelude::*;

use crate::charmap::CharacterMap;
use crate::color::argb_a;
use crate::color::argb_b;
use crate::color::argb_g;
use crate::color::argb_r;
use crate::color::parsed_color;
use crate::color::HexColor;
use crate::color::Opacity;
use crate::color::RenderColor;
use crate::types::CharacterSettings;
use crate::types::Position;
use crate::types::TextOffset;
use vstd::string::StringExecFns;

verus! {

/// Immutable display settings, built once from the persisted state.
pub struct DisplayConfig {
    /// Tile opacity as a packed alpha value (alpha channel only).
    pub opacity: u32,
    pub border_size: u16,
    pub border_color: RenderColor,
    pub text_offset: TextOffset,
    /// Label foreground as a packed ARGB value.
    pub text_foreground: u32,
    pub hide_when_no_focus: bool,
}

/// The 16-bit-per-channel rendering form of a packed ARGB color.
pub open spec fn render_of(v: u32) -> RenderColor {
    RenderColor {
        red: (argb_r(v) * 257) as u16,
        green: (argb_g(v) * 257) as u16,
        blue: (argb_b(v) * 257) as u16,
        alpha: (argb_a(v) * 257) as u16,
    }
}

/// Largest accepted border size, in pixels.
pub const MAX_BORDER_SIZE: u16 = 100;

/// Smallest accepted label text size, in pixels.
pub const MIN_TEXT_SIZE: u16 = 1;

/// Largest accepted label text size, in pixels.
pub const MAX_TEXT_SIZE: u16 = 200;

/// Smallest accepted thumbnail dimension, in pixels (0 still means
/// auto-detect for per-character dimensions).
pub const MIN_DIMENSION: u16 = 32;

/// Largest accepted thumbnail dimension, in pixels.
pub const MAX_DIMENSION: u16 = 4096;

/// Largest accepted snap threshold, in pixels (0 disables snapping).
pub const MAX_SNAP_THRESHOLD: u16 = 1000;

pub fn default_snap_threshold() -> (r: u16)
    ensures
        r == 15,
{
    15
}

pub fn default_width() -> (r: u16)
    ensures
        r == 250,
{
    250
}

pub fn default_height() -> (r: u16)
    ensures
        r == 141,
{
    141
}

pub fn default_hotkey_require_eve_focus() -> (r: bool)
    ensures
        r,
{
    true
}

/// Global settings that apply to every preview tile.
pub struct GlobalSettings {
    /// Tile opacity in percent (0-100).
    pub opacity_percent: u8,
    pub border_size: u16,
    /// Border color as a hex string ("#AARRGGBB" or "#RRGGBB").
    pub border_color_hex: String,
    pub text_x: i16,
    pub text_y: i16,
    /// Label text color as a hex string.
    pub text_color_hex: String,
    /// Label text size in pixels.
    pub text_size: u16,
    pub hide_when_no_focus: bool,
    /// Snap threshold in pixels (0 = disabled).
    pub snap_threshold: u16,
    /// Default thumbnail width for new characters.
    pub default_width: u16,
    /// Default thumbnail height for new characters.
    pub default_height: u16,
    /// Character order for hotkey cycling; auto-extended when a character is
    /// first seen, manually reorderable.
    pub hotkey_order: Vec<String>,
    /// Only cycle via hotkeys while a tracked window is focused.
    pub hotkey_require_eve_focus: bool,
}

/// Per-character dimensions clamped into the accepted range; 0 stays 0
/// (auto-detect), a too-small value falls back to the default, a too-large
/// one is clamped.
pub open spec fn clamped_dimension(v: u16, default: u16) -> u16 {
    if v > 0 && v < MIN_DIMENSION {
        default
    } else if v > MAX_DIMENSION {
        MAX_DIMENSION
    } else {
        v
    }
}

/// One character record after dimension clamping.
pub open spec fn clamped_settings(cs: CharacterSettings, dw: u16, dh: u16) -> CharacterSettings {
    CharacterSettings {
        x: cs.x,
        y: cs.y,
        width: clamped_dimension(cs.width, dw),
        height: clamped_dimension(cs.height, dh),
    }
}

/// Values read from the environment that override the persisted settings;
/// colors already formatted as hex strings, opacity still a packed ARGB
/// value.
pub struct EnvOverrides {
    pub opacity: Option<u32>,
    pub border_size: Option<u16>,
    pub border_color: Option<String>,
    pub text_x: Option<i16>,
    pub text_y: Option<i16>,
    pub text_color: Option<String>,
    pub hide_when_no_focus: Option<bool>,
}

/// Persistent engine state: global settings plus the per-character records.
pub struct PersistentState {
    pub global: GlobalSettings,
    pub character_positions: CharacterMap,
}

impl PersistentState {
    /// Structural well-formedness of the character records.
    pub open spec fn wf(&self) -> bool {
        self.character_positions.wf()
    }

    /// Build the display configuration from the current settings. A border
    /// or text color that does not parse falls back to the default (opaque
    /// red and opaque white); the opacity percentage becomes a packed alpha
    /// value, truncating.
    pub fn build_display_config(&self) -> (r: DisplayConfig)
        ensures
            r.opacity == (if self.global.opacity_percent > 100 {
                100 as int
            } else {
                self.global.opacity_percent as int
            }) * 255 / 100 * 0x1000000,
            r.border_size == self.global.border_size,
            r.border_color == render_of(
                match parsed_color(self.global.border_color_hex@) {
                    Some(v) => v,
                    None => 0xFFFF0000,
                },
            ),
            r.text_offset == (TextOffset { x: self.global.text_x, y: self.global.text_y }),
            r.text_foreground == match parsed_color(self.global.text_color_hex@) {
                Some(v) => v,
                None => 0xFFFFFFFF,
            },
            r.hide_when_no_focus == self.global.hide_when_no_focus,
    {
        let border_color = match HexColor::parse(self.global.border_color_hex.as_str()) {
            Some(c) => c.to_x11_color(),
            None => HexColor::from_argb32(0xFFFF0000).to_x11_color(),
        };
        let text_foreground = match HexColor::parse(self.global.text_color_hex.as_str()) {
            Some(c) => c.argb32(),
            None => HexColor::from_argb32(0xFFFFFFFF).argb32(),
        };
        let opacity = Opacity::from_percent(self.global.opacity_percent).to_argb32();
        DisplayConfig {
            opacity,
            border_size: self.global.border_size,
            border_color,
            text_offset: TextOffset::from_border_edge(self.global.text_x, self.global.text_y),
            text_foreground,
            hide_when_no_focus: self.global.hide_when_no_focus,
        }
    }

    /// Default thumbnail dimensions for a new character.
    pub fn default_thumbnail_size(&self, _screen_width: u16, _screen_height: u16) -> (r: (
        u16,
        u16,
    ))
        ensures
            r.0 == self.global.default_width,
            r.1 == self.global.default_height,
    {
        (self.global.default_width, self.global.default_height)
    }

    /// Record a character's position and dimensions after a drag. Returns
    /// whether anything was recorded — exactly when the name is non-empty —
    /// in which case the caller must persist the state.
    pub fn update_position(
        &mut self,
        character_name: &str,
        x: i16,
        y: i16,
        width: u16,
        height: u16,
    ) -> (r: bool)
        requires
            old(self).wf(),
        ensures
            final(self).wf(),
            final(self).global == old(self).global,
            r == (character_name@.len() > 0),
            character_name@.len() > 0 ==> final(self).character_positions.view() == old(
                self,
            ).character_positions.view().insert(
                character_name@,
                CharacterSettings { x, y, width, height },
            ),
            character_name@.len() == 0 ==> final(self).character_positions.view() == old(
                self,
            ).character_positions.view(),
    {
        if !character_name.is_empty() {
            let settings = CharacterSettings::new(x, y, width, height);
            let name = copy_str(character_name);
            self.character_positions.insert(name, settings);
            true
        } else {
            false
        }
    }

    /// Handle a character name change (login/logout): snapshot the outgoing
    /// name's current geometry, then report the persisted position of the new
    /// name, if there is one. The caller must persist the state afterwards.
    pub fn handle_character_change(
        &mut self,
        old_name: &str,
        new_name: &str,
        current_position: Position,
        current_width: u16,
        current_height: u16,
    ) -> (r: Option<Position>)
        requires
            old(self).wf(),
        ensures
            final(self).wf(),
            final(self).global == old(self).global,
            old_name@.len() > 0 ==> final(self).character_positions.view() == old(
                self,
            ).character_positions.view().insert(
                old_name@,
                CharacterSettings {
                    x: current_position.x,
                    y: current_position.y,
                    width: current_width,
                    height: current_height,
                },
            ),
            old_name@.len() == 0 ==> final(self).character_positions.view() == old(
                self,
            ).character_positions.view(),
            r == (if new_name@.len() > 0 && final(self).character_positions.view().contains_key(
                new_name@,
            ) {
                Some(
                    Position {
                        x: final(self).character_positions.view()[new_name@].x,
                        y: final(self).character_positions.view()[new_name@].y,
                    },
                )
            } else {
                None
            }),
    {
        if !old_name.is_empty() {
            let settings = CharacterSettings::new(
                current_position.x,
                current_position.y,
                current_width,
                current_height,
            );
            let name = copy_str(old_name);
            self.character_positions.insert(name, settings);
        }
        if !new_name.is_empty() {
            if let Some(settings) = self.character_positions.get(new_name) {
                return Some(settings.position());
            }
        }
        None
    }

    /// Apply the environment's overrides: each present value replaces the
    /// corresponding setting, a raw packed color becoming the opacity
    /// percentage. Colors arrive as hex strings formatted by the caller.
    pub fn apply_env_overrides(&mut self, overrides: EnvOverrides)
        requires
            old(self).wf(),
        ensures
            final(self).wf(),
            final(self).character_positions == old(self).character_positions,
            final(self).global.opacity_percent == match overrides.opacity {
                Some(v) => (crate::color::argb_a(v) * 100 / 255) as u8,
                None => old(self).global.opacity_percent,
            },
            final(self).global.border_size == match overrides.border_size {
                Some(v) => v,
                None => old(self).global.border_size,
            },
            final(self).global.border_color_hex == match overrides.border_color {
                Some(s) => s,
                None => old(self).global.border_color_hex,
            },
            final(self).global.text_x == match overrides.text_x {
                Some(v) => v,
                None => old(self).global.text_x,
            },
            final(self).global.text_y == match overrides.text_y {
                Some(v) => v,
                None => old(self).global.text_y,
            },
            final(self).global.text_color_hex == match overrides.text_color {
                Some(s) => s,
                None => old(self).global.text_color_hex,
            },
            final(self).global.hide_when_no_focus == match overrides.hide_when_no_focus {
                Some(v) => v,
                None => old(self).global.hide_when_no_focus,
            },
            final(self).global.text_size == old(self).global.text_size,
            final(self).global.snap_threshold == old(self).global.snap_threshold,
            final(self).global.default_width == old(self).global.default_width,
            final(self).global.default_height == old(self).global.default_height,
            final(self).global.hotkey_order == old(self).global.hotkey_order,
            final(self).global.hotkey_require_eve_focus == old(
                self,
            ).global.hotkey_require_eve_focus,
    {
        match overrides.opacity {
            Some(v) => {
                self.global.opacity_percent = crate::color::Opacity::from_argb32(v).percent();
            },
            None => {},
        }
        match overrides.border_size {
            Some(v) => {
                self.global.border_size = v;
            },
            None => {},
        }
        match overrides.border_color {
            Some(s) => {
                self.global.border_color_hex = s;
            },
            None => {},
        }
        match overrides.text_x {
            Some(v) => {
                self.global.text_x = v;
            },
            None => {},
        }
        match overrides.text_y {
            Some(v) => {
                self.global.text_y = v;
            },
            None => {},
        }
        match overrides.text_color {
            Some(s) => {
                self.global.text_color_hex = s;
            },
            None => {},
        }
        match overrides.hide_when_no_focus {
            Some(v) => {
                self.global.hide_when_no_focus = v;
            },
            None => {},
        }
    }

    /// Clamp every configured value into its accepted range. Called after the
    /// state is read from disk or assembled from environment overrides.
    pub fn validate_and_clamp(&mut self)
        requires
            old(self).wf(),
        ensures
            final(self).wf(),
            final(self).global.opacity_percent == if old(self).global.opacity_percent > 100 {
                100 as u8
            } else {
                old(self).global.opacity_percent
            },
            final(self).global.border_size == if old(self).global.border_size > MAX_BORDER_SIZE {
                MAX_BORDER_SIZE
            } else {
                old(self).global.border_size
            },
            final(self).global.text_size == if old(self).global.text_size < MIN_TEXT_SIZE {
                MIN_TEXT_SIZE
            } else if old(self).global.text_size > MAX_TEXT_SIZE {
                MAX_TEXT_SIZE
            } else {
                old(self).global.text_size
            },
            final(self).global.default_width == if old(self).global.default_width
                < MIN_DIMENSION {
                250 as u16
            } else if old(self).global.default_width > MAX_DIMENSION {
                MAX_DIMENSION
            } else {
                old(self).global.default_width
            },
            final(self).global.default_height == if old(self).global.default_height
                < MIN_DIMENSION {
                141 as u16
            } else if old(self).global.default_height > MAX_DIMENSION {
                MAX_DIMENSION
            } else {
                old(self).global.default_height
            },
            final(self).global.snap_threshold == if old(self).global.snap_threshold
                > MAX_SNAP_THRESHOLD {
                MAX_SNAP_THRESHOLD
            } else {
                old(self).global.snap_threshold
            },
            final(self).global.border_color_hex == old(self).global.border_color_hex,
            final(self).global.text_color_hex == old(self).global.text_color_hex,
            final(self).global.text_x == old(self).global.text_x,
            final(self).global.text_y == old(self).global.text_y,
            final(self).global.hide_when_no_focus == old(self).global.hide_when_no_focus,
            final(self).global.hotkey_order == old(self).global.hotkey_order,
            final(self).global.hotkey_require_eve_focus == old(
                self,
            ).global.hotkey_require_eve_focus,
            final(self).character_positions.view().dom() == old(
                self,
            ).character_positions.view().dom(),
            forall|n: Seq<char>|
                old(self).character_positions.view().contains_key(n)
                    ==> final(self).character_positions.view()[n] == clamped_settings(
                    old(self).character_positions.view()[n],
                    final(self).global.default_width,
                    final(self).global.default_height,
                ),
    {
        if self.global.opacity_percent > 100 {
            self.global.opacity_percent = 100;
        }
        if self.global.border_size > MAX_BORDER_SIZE {
            self.global.border_size = MAX_BORDER_SIZE;
        }
        if self.global.text_size < MIN_TEXT_SIZE {
            self.global.text_size = MIN_TEXT_SIZE;
        } else if self.global.text_size > MAX_TEXT_SIZE {
            self.global.text_size = MAX_TEXT_SIZE;
        }
        if self.global.default_width < MIN_DIMENSION {
            self.global.default_width = default_width();
        } else if self.global.default_width > MAX_DIMENSION {
            self.global.default_width = MAX_DIMENSION;
        }
        if self.global.default_height < MIN_DIMENSION {
            self.global.default_height = default_height();
        } else if self.global.default_height > MAX_DIMENSION {
            self.global.default_height = MAX_DIMENSION;
        }
        if self.global.snap_threshold > MAX_SNAP_THRESHOLD {
            self.global.snap_threshold = MAX_SNAP_THRESHOLD;
        }
        self.character_positions.clamp_dimensions(
            self.global.default_width,
            self.global.default_height,
        );
    }
}

/// An owned copy of a borrowed string.
fn copy_str(s: &str) -> (r: String)
    ensures
        r@ == s@,
{
    String::from_str(s)
}

} // verus!
