//! Map from character names to their persisted per-character settings.

use vstd::prelude::*;

use crate::settings::clamped_settings;
use crate::types::CharacterSettings;

verus! {

use vstd::string::StringExecFns;

/// The map an association list of (name, settings) entries denotes.
pub open spec fn settings_map(s: Seq<(String, CharacterSettings)>) -> Map<
    Seq<char>,
    CharacterSettings,
>
    decreases s.len(),
{
    if s.len() == 0 {
        Map::empty()
    } else {
        settings_map(s.drop_last()).insert(s.last().0@, s.last().1)
    }
}

/// No two entries share a name.
pub open spec fn settings_unique(s: Seq<(String, CharacterSettings)>) -> bool {
    forall|i: int, j: int| 0 <= i < j < s.len() ==> s[i].0@ != s[j].0@
}

proof fn lemma_settings_value(s: Seq<(String, CharacterSettings)>, i: int)
    requires
        settings_unique(s),
        0 <= i < s.len(),
    ensures
        settings_map(s).contains_key(s[i].0@),
        settings_map(s)[s[i].0@] == s[i].1,
    decreases s.len(),
{
    if i == s.len() - 1 {
    } else {
        lemma_settings_value(s.drop_last(), i);
        assert(s.drop_last()[i] == s[i]);
    }
}

proof fn lemma_settings_contains(s: Seq<(String, CharacterSettings)>, n: Seq<char>)
    ensures
        settings_map(s).contains_key(n) <==> (exists|i: int| 0 <= i < s.len() && s[i].0@ == n),
    decreases s.len(),
{
    if s.len() > 0 {
        lemma_settings_contains(s.drop_last(), n);
        if s.last().0@ == n {
            assert(s[s.len() - 1].0@ == n);
        } else if settings_map(s).contains_key(n) {
            let i = choose|i: int| 0 <= i < s.drop_last().len() && s.drop_last()[i].0@ == n;
            assert(s[i].0@ == n);
        } else if exists|i: int| 0 <= i < s.len() && s[i].0@ == n {
            let i = choose|i: int| 0 <= i < s.len() && s[i].0@ == n;
            assert(s.drop_last()[i].0@ == n);
        }
    }
}

proof fn lemma_settings_update(
    s: Seq<(String, CharacterSettings)>,
    i: int,
    p: (String, CharacterSettings),
)
    requires
        settings_unique(s),
        0 <= i < s.len(),
        p.0@ == s[i].0@,
    ensures
        settings_unique(s.update(i, p)),
        settings_map(s.update(i, p)) == settings_map(s).insert(p.0@, p.1),
    decreases s.len(),
{
    let t = s.update(i, p);
    assert(forall|k: int| 0 <= k < s.len() && k != i ==> t[k] == s[k]);
    if i == s.len() - 1 {
        assert(t.drop_last() =~= s.drop_last());
        assert(settings_map(t) =~= settings_map(s).insert(p.0@, p.1));
    } else {
        lemma_settings_update(s.drop_last(), i, p);
        assert(t.drop_last() =~= s.drop_last().update(i, p));
        assert(t.last() == s.last());
        assert(s.last().0@ != p.0@);
        assert(settings_map(t) =~= settings_map(s).insert(p.0@, p.1));
    }
}

proof fn lemma_settings_push(s: Seq<(String, CharacterSettings)>, p: (String, CharacterSettings))
    requires
        settings_unique(s),
        forall|i: int| 0 <= i < s.len() ==> s[i].0@ != p.0@,
    ensures
        settings_unique(s.push(p)),
        settings_map(s.push(p)) == settings_map(s).insert(p.0@, p.1),
{
    assert(s.push(p).drop_last() =~= s);
    assert(s.push(p).last() == p);
}

proof fn lemma_settings_nonempty(s: Seq<(String, CharacterSettings)>)
    requires
        s.len() > 0,
    ensures
        settings_map(s) != Map::<Seq<char>, CharacterSettings>::empty(),
{
    assert(settings_map(s).contains_key(s.last().0@));
    assert(!Map::<Seq<char>, CharacterSettings>::empty().contains_key(s.last().0@));
}

/// Persisted per-character settings keyed by character name.
pub struct CharacterMap {
    entries: Vec<(String, CharacterSettings)>,
}

impl CharacterMap {
    /// The map this value denotes.
    pub closed spec fn view(&self) -> Map<Seq<char>, CharacterSettings> {
        settings_map(self.entries@)
    }

    /// One settings entry per name.
    pub closed spec fn wf(&self) -> bool {
        settings_unique(self.entries@)
    }

    pub fn new() -> (r: Self)
        ensures
            r.wf(),
            r.view() == Map::<Seq<char>, CharacterSettings>::empty(),
    {
        Self { entries: Vec::new() }
    }

    /// The settings recorded for a character, if any.
    pub fn get(&self, character_name: &str) -> (r: Option<CharacterSettings>)
        requires
            self.wf(),
        ensures
            match r {
                Some(cs) => self.view().contains_key(character_name@)
                    && self.view()[character_name@] == cs,
                None => !self.view().contains_key(character_name@),
            },
    {
        let name = String::from_str(character_name);
        let n = self.entries.len();
        let mut i: usize = 0;
        while i < n
            invariant
                n == self.entries@.len(),
                i <= n,
                settings_unique(self.entries@),
                name@ == character_name@,
                forall|k: int| 0 <= k < i ==> self.entries@[k].0@ != character_name@,
            decreases n - i,
        {
            if self.entries[i].0 == name {
                proof {
                    lemma_settings_value(self.entries@, i as int);
                }
                return Some(self.entries[i].1);
            }
            i = i + 1;
        }
        proof {
            lemma_settings_contains(self.entries@, character_name@);
        }
        None
    }

    /// Record (or replace) the settings for a character.
    pub fn insert(&mut self, character_name: String, settings: CharacterSettings)
        requires
            old(self).wf(),
        ensures
            final(self).wf(),
            final(self).view() == old(self).view().insert(character_name@, settings),
    {
        let n = self.entries.len();
        let mut i: usize = 0;
        while i < n
            invariant
                n == self.entries@.len(),
                i <= n,
                settings_unique(self.entries@),
                self.entries@ == old(self).entries@,
                forall|k: int| 0 <= k < i ==> self.entries@[k].0@ != character_name@,
            decreases n - i,
        {
            if self.entries[i].0 == character_name {
                proof {
                    let s = self.entries@;
                    lemma_settings_update(s, i as int, (s[i as int].0, settings));
                }
                self.entries[i].1 = settings;
                return ;
            }
            i = i + 1;
        }
        proof {
            lemma_settings_push(self.entries@, (character_name, settings));
        }
        self.entries.push((character_name, settings));
    }

    /// Clamp every record's dimensions into the accepted range (see
    /// `clamped_settings`): 0 stays 0 (auto-detect), a too-small value falls
    /// back to the default, a too-large one is clamped.
    pub fn clamp_dimensions(&mut self, default_width: u16, default_height: u16)
        requires
            old(self).wf(),
        ensures
            final(self).wf(),
            final(self).view().dom() == old(self).view().dom(),
            forall|n: Seq<char>|
                old(self).view().contains_key(n) ==> final(self).view()[n] == clamped_settings(
                    old(self).view()[n],
                    default_width,
                    default_height,
                ),
    {
        let n = self.entries.len();
        let mut i: usize = 0;
        while i < n
            invariant
                n == self.entries@.len(),
                old(self).entries@.len() == n,
                i <= n,
                settings_unique(old(self).entries@),
                forall|k: int| 0 <= k < n ==> self.entries@[k].0 == old(self).entries@[k].0,
                forall|k: int| i <= k < n ==> self.entries@[k].1 == old(self).entries@[k].1,
                forall|k: int|
                    0 <= k < i ==> self.entries@[k].1 == clamped_settings(
                        old(self).entries@[k].1,
                        default_width,
                        default_height,
                    ),
            decreases n - i,
        {
            let cur = self.entries[i].1;
            let width = if cur.width > 0 && cur.width < crate::settings::MIN_DIMENSION {
                default_width
            } else if cur.width > crate::settings::MAX_DIMENSION {
                crate::settings::MAX_DIMENSION
            } else {
                cur.width
            };
            let height = if cur.height > 0 && cur.height < crate::settings::MIN_DIMENSION {
                default_height
            } else if cur.height > crate::settings::MAX_DIMENSION {
                crate::settings::MAX_DIMENSION
            } else {
                cur.height
            };
            self.entries[i].1 = CharacterSettings { x: cur.x, y: cur.y, width, height };
            i = i + 1;
        }
        proof {
            let s = old(self).entries@;
            let t = self.entries@;
            assert(settings_unique(t));
            assert forall|nm: Seq<char>|
                settings_map(t).contains_key(nm) == settings_map(s).contains_key(nm) by {
                lemma_settings_contains(s, nm);
                lemma_settings_contains(t, nm);
                if exists|k: int| 0 <= k < s.len() && s[k].0@ == nm {
                    let k = choose|k: int| 0 <= k < s.len() && s[k].0@ == nm;
                    assert(t[k].0@ == nm);
                }
                if exists|k: int| 0 <= k < t.len() && t[k].0@ == nm {
                    let k = choose|k: int| 0 <= k < t.len() && t[k].0@ == nm;
                    assert(s[k].0@ == nm);
                }
            }
            assert(settings_map(t).dom() =~= settings_map(s).dom());
            assert forall|nm: Seq<char>| settings_map(s).contains_key(nm) implies settings_map(
                t,
            )[nm] == clamped_settings(settings_map(s)[nm], default_width, default_height) by {
                lemma_settings_contains(s, nm);
                let k = choose|k: int| 0 <= k < s.len() && s[k].0@ == nm;
                lemma_settings_value(s, k);
                lemma_settings_value(t, k);
            }
        }
    }

    /// The records, one (name, settings) entry per character, for writing
    /// out.
    pub fn entries(&self) -> (r: &Vec<(String, CharacterSettings)>)
        ensures
            settings_map(r@) == self.view(),
            settings_unique(r@) == self.wf(),
    {
        &self.entries
    }

    /// Merge another set of records into this one: records of the other map
    /// win, everything else is kept. Used when saving, so that the engine's
    /// geometry records update the on-disk profile without touching records
    /// it never saw.
    pub fn merge_from(&mut self, other: &CharacterMap)
        requires
            old(self).wf(),
            other.wf(),
        ensures
            final(self).wf(),
            final(self).view() == old(self).view().union_prefer_right(other.view()),
    {
        let n = other.entries.len();
        let mut i: usize = 0;
        while i < n
            invariant
                n == other.entries@.len(),
                i <= n,
                other.wf(),
                settings_unique(self.entries@),
                settings_map(self.entries@) == old(self).view().union_prefer_right(
                    settings_map(other.entries@.take(i as int)),
                ),
            decreases n - i,
        {
            proof {
                assert(other.entries@.take(i as int + 1).drop_last() =~= other.entries@.take(
                    i as int,
                ));
                assert(other.entries@.take(i as int + 1).last() == other.entries@[i as int]);
                lemma_settings_value(other.entries@, i as int);
            }
            let name = other.entries[i].0.clone();
            let settings = other.entries[i].1;
            self.insert(name, settings);
            proof {
                assert(settings_map(self.entries@) =~= old(self).view().union_prefer_right(
                    settings_map(other.entries@.take(i as int + 1)),
                ));
            }
            i = i + 1;
        }
        proof {
            assert(other.entries@.take(n as int) =~= other.entries@);
        }
    }

    /// Whether no character has recorded settings.
    pub fn is_empty(&self) -> (r: bool)
        ensures
            r == (self.view() == Map::<Seq<char>, CharacterSettings>::empty()),
    {
        if self.entries.len() == 0 {
            assert(self.entries@ =~= Seq::<(String, CharacterSettings)>::empty());
            true
        } else {
            proof {
                lemma_settings_nonempty(self.entries@);
            }
            false
        }
    }
}

impl Default for CharacterMap {
    fn default() -> (r: Self)
        ensures
            r.wf(),
            r.view() == Map::<Seq<char>, CharacterSettings>::empty(),
    {
        Self::new()
    }
}

} // verus!
