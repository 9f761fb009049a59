//! Parsing keybinding strings (e.g. `"Super+Shift+Left"`) into modifiers
//! and a key name, and turning the key's keysym into a [`KeyCombo`].
//!
//! [`KeyCombo::parse`] does the whole parse around a keysym lookup it is
//! handed (libxkbcommon's table, in the compositor); [`split_combo`] and
//! [`KeyCombo::from_lookup`] are the parts before and after that lookup,
//! with exact contracts.

use vstd::prelude::*;

use crate::model;
use crate::text::{
    debug_quoted, debug_str, lowercase, lower_eq, split, split_on, to_ascii_lowercase, trim, trimmed,
};

verus! {

/// Modifier keys tracked for keybindings. "Super" is the Windows/Command
/// key (xkb `Mod4`/`Logo`).
#[derive(Debug, Clone, Copy, PartialEq, Eq, Structural)]
pub struct Modifiers {
    pub logo: bool,
    pub shift: bool,
    pub ctrl: bool,
    pub alt: bool,
}

impl Default for Modifiers {
    fn default() -> (m: Modifiers)
        ensures
            m == (Modifiers { logo: false, shift: false, ctrl: false, alt: false }),
    {
        Modifiers { logo: false, shift: false, ctrl: false, alt: false }
    }
}

/// A parsed keybinding: modifiers plus a single raw keysym, normalized to
/// its lowercase form (see [`to_lower_keysym`]).
#[derive(Debug, Clone, Copy, PartialEq, Eq, Structural)]
pub struct KeyCombo {
    pub modifiers: Modifiers,
    pub keysym: u32,
}

/// A keybinding string split into its modifiers and its key name.
#[derive(Debug, Clone, PartialEq)]
pub struct ComboParts {
    pub modifiers: Modifiers,
    pub key: String,
}

/// ASCII `A..=Z` keysyms mapped to their `a..=z` equivalents.
pub open spec fn lower_keysym(k: u32) -> u32 {
    if 0x41 <= k <= 0x5a {
        (k + 0x20) as u32
    } else {
        k
    }
}

/// Lowercase ASCII `A..=Z` keysyms to their `a..=z` equivalents; all other
/// keysyms (named keys like `Left`/`Return`, digits, function keys, ...)
/// are returned unchanged.
pub fn to_lower_keysym(sym: u32) -> (r: u32)
    ensures
        r == lower_keysym(sym),
{
    if 0x41 <= sym && sym <= 0x5a {
        sym + 0x20
    } else {
        sym
    }
}

/// The modifier a (lowercased) name stands for.
pub enum ModKind {
    Logo,
    Shift,
    Ctrl,
    Alt,
}

pub open spec fn mod_kind(name: Seq<char>) -> Option<ModKind> {
    let l = lowercase(name);
    if l == "super"@ || l == "logo"@ || l == "mod4"@ {
        Some(ModKind::Logo)
    } else if l == "shift"@ {
        Some(ModKind::Shift)
    } else if l == "ctrl"@ || l == "control"@ {
        Some(ModKind::Ctrl)
    } else if l == "alt"@ || l == "mod1"@ {
        Some(ModKind::Alt)
    } else {
        None
    }
}

/// The non-empty, trimmed pieces of `s` between `+` signs.
pub open spec fn combo_pieces(s: Seq<char>) -> Seq<Seq<char>> {
    split_on(s, '+').map_values(|p: Seq<char>| trimmed(p)).filter(|p: Seq<char>| p.len() > 0)
}

/// Where the first unknown modifier name is, if any.
pub open spec fn first_unknown(mods: Seq<Seq<char>>) -> Option<int> {
    mods.map_values(|m: Seq<char>| mod_kind(m) is None).index_of_first(true)
}

/// Whether some modifier name stands for `k`.
pub open spec fn has_mod(mods: Seq<Seq<char>>, k: ModKind) -> bool {
    exists|i: int| 0 <= i < mods.len() && mod_kind(#[trigger] mods[i]) == Some(k)
}

pub open spec fn mods_of(mods: Seq<Seq<char>>) -> Modifiers {
    Modifiers {
        logo: has_mod(mods, ModKind::Logo),
        shift: has_mod(mods, ModKind::Shift),
        ctrl: has_mod(mods, ModKind::Ctrl),
        alt: has_mod(mods, ModKind::Alt),
    }
}

/// What [`split_combo`] gives for `s`: an error for no pieces or for the
/// first unknown modifier, else the modifiers and the last piece as the
/// key name.
pub open spec fn combo_parts(s: Seq<char>) -> Result<(Modifiers, Seq<char>), Seq<char>> {
    let p = combo_pieces(s);
    if p.len() == 0 {
        Err("empty key combo: "@ + debug_quoted(s))
    } else {
        let mods = p.drop_last();
        match first_unknown(mods) {
            Some(i) => Err("unknown modifier "@ + debug_quoted(lowercase(mods[i])) + " in "@ + debug_quoted(s)),
            None => Ok((mods_of(mods), p.last())),
        }
    }
}

fn mod_kind_of(name: &str) -> (k: Option<ModKind>)
    ensures
        k == mod_kind(name@),
{
    if lower_eq(name, "super") || lower_eq(name, "logo") || lower_eq(name, "mod4") {
        Some(ModKind::Logo)
    } else if lower_eq(name, "shift") {
        Some(ModKind::Shift)
    } else if lower_eq(name, "ctrl") || lower_eq(name, "control") {
        Some(ModKind::Ctrl)
    } else if lower_eq(name, "alt") || lower_eq(name, "mod1") {
        Some(ModKind::Alt)
    } else {
        None
    }
}

/// Split a combo like `"Super+Shift+Left"` into its modifiers and its key
/// name (`"Left"`).
pub fn split_combo(s: &str) -> (r: Result<ComboParts, String>)
    ensures
        match r {
            Ok(p) => combo_parts(s@) == Ok::<(Modifiers, Seq<char>), Seq<char>>((p.modifiers, p.key@)),
            Err(e) => combo_parts(s@) == Err::<(Modifiers, Seq<char>), Seq<char>>(e@),
        },
{
    let raw = split(s, '+');
    let ghost pieces = split_on(s@, '+');
    let ghost tr = pieces.map_values(|p: Seq<char>| trimmed(p));
    let ghost nonempty = |p: Seq<char>| p.len() > 0;
    let mut parts: Vec<&str> = Vec::new();
    let mut i: usize = 0;
    while i < raw.len()
        invariant
            i <= raw@.len(),
            raw@.len() == pieces.len(),
            forall|k: int| 0 <= k < raw@.len() ==> (#[trigger] raw@[k])@ == pieces[k],
            tr == pieces.map_values(|p: Seq<char>| trimmed(p)),
            forall|p: Seq<char>| #[trigger] nonempty(p) == (p.len() > 0),
            parts@.map_values(|p: &str| p@) == tr.take(i as int).filter(nonempty),
        decreases raw@.len() - i,
    {
        let t = trim(raw[i]);
        let ghost before = parts@;
        proof {
            reveal_with_fuel(Seq::<_>::filter, 1);
            assert(tr.take(i + 1).drop_last() =~= tr.take(i as int));
            assert(tr.take(i + 1).last() == t@);
        }
        if t.unicode_len() > 0 {
            parts.push(t);
            proof {
                assert(parts@.map_values(|p: &str| p@) =~= before.map_values(|p: &str| p@).push(t@));
            }
        } else {
            proof {
                assert(!nonempty(t@));
            }
        }
        i = i + 1;
    }
    proof {
        assert(tr.take(i as int) =~= tr);
        assert(combo_pieces(s@) == tr.filter(nonempty)) by {
            assert(nonempty == (|p: Seq<char>| p.len() > 0));
        }
    }
    let ghost views = parts@.map_values(|p: &str| p@);
    proof {
        assert(combo_pieces(s@) == views);
    }
    let n = parts.len();
    if n == 0 {
        let mut e = String::from_str("empty key combo: ");
        let q = debug_str(s);
        e.append(q.as_str());
        return Err(e);
    }
    let ghost mods = views.drop_last();
    let mut modifiers = Modifiers { logo: false, shift: false, ctrl: false, alt: false };
    let mut k: usize = 0;
    while k < n - 1
        invariant
            k <= n - 1,
            n == parts@.len(),
            n > 0,
            combo_pieces(s@) == views,
            views == parts@.map_values(|p: &str| p@),
            mods == views.drop_last(),
            forall|j: int| 0 <= j < k ==> (#[trigger] mod_kind(mods[j])) is Some,
            modifiers.logo == exists|j: int| 0 <= j < k && mod_kind(#[trigger] mods[j]) == Some(ModKind::Logo),
            modifiers.shift == exists|j: int| 0 <= j < k && mod_kind(#[trigger] mods[j]) == Some(ModKind::Shift),
            modifiers.ctrl == exists|j: int| 0 <= j < k && mod_kind(#[trigger] mods[j]) == Some(ModKind::Ctrl),
            modifiers.alt == exists|j: int| 0 <= j < k && mod_kind(#[trigger] mods[j]) == Some(ModKind::Alt),
        decreases n - 1 - k,
    {
        let m = parts[k];
        proof {
            assert(mods[k as int] == m@);
        }
        match mod_kind_of(m) {
            Some(ModKind::Logo) => {
                modifiers.logo = true;
            },
            Some(ModKind::Shift) => {
                modifiers.shift = true;
            },
            Some(ModKind::Ctrl) => {
                modifiers.ctrl = true;
            },
            Some(ModKind::Alt) => {
                modifiers.alt = true;
            },
            None => {
                proof {
                    let flags = mods.map_values(|m: Seq<char>| mod_kind(m) is None);
                    flags.index_of_first_ensures(true);
                    assert(flags[k as int]);
                    match flags.index_of_first(true) {
                        Some(q) => {
                            if q < k {
                                assert(!flags[q]);
                            }
                            assert(q == k);
                        },
                        None => {},
                    }
                }
                let lower = to_ascii_lowercase(m);
                let mut e = String::from_str("unknown modifier ");
                let q = debug_str(lower.as_str());
                e.append(q.as_str());
                e.append(" in ");
                let q2 = debug_str(s);
                e.append(q2.as_str());
                return Err(e);
            },
        }
        k = k + 1;
    }
    proof {
        let flags = mods.map_values(|m: Seq<char>| mod_kind(m) is None);
        flags.index_of_first_ensures(true);
        match flags.index_of_first(true) {
            Some(q) => {
                assert(flags[q]);
                assert(mod_kind(mods[q]) is Some);
            },
            None => {},
        }
        assert(modifiers == mods_of(mods));
    }
    let key = String::from_str(parts[n - 1]);
    Ok(ComboParts { modifiers, key })
}

/// What [`KeyCombo::from_lookup`] gives: an error for an unknown key (the
/// lookup gave `0`, `NoSymbol`), else the combo with the keysym
/// lowercased.
pub open spec fn combo_from_lookup(s: Seq<char>, parts: (Modifiers, Seq<char>), keysym: u32) -> Result<
    KeyCombo,
    Seq<char>,
> {
    if keysym == 0 {
        Err("unknown key "@ + debug_quoted(parts.1) + " in "@ + debug_quoted(s))
    } else {
        Ok(KeyCombo { modifiers: parts.0, keysym: lower_keysym(keysym) })
    }
}

impl KeyCombo {
    /// Parse a combo like `"Super+Shift+Left"` or `"Super+Return"`: split
    /// it into modifiers and a key name, look the name up with `lookup`,
    /// and finish the combo from the keysym it gives (see
    /// [`KeyCombo::from_lookup`]).
    ///
    /// The compositor passes libxkbcommon's case-insensitive
    /// `keysym_from_name` (`0` for an unknown name; it panics on a name
    /// holding a NUL). The lookup is a parameter rather than a call made
    /// here because calling it from the library would make every binary
    /// that links the library, its tests among them, link the native
    /// libxkbcommon too; only the compositor binary needs it. The table
    /// it reads belongs to the libxkbcommon installed where the compositor
    /// runs, so the contract ties the result to whatever the lookup gave
    /// for the key name, and [`KeyCombo::from_lookup`] states the rest for
    /// every keysym.
    pub fn parse<F: Fn(&str) -> u32>(s: &str, lookup: F) -> (r: Result<KeyCombo, String>)
        requires
            match combo_parts(s@) {
                Ok(p) => !p.1.contains('\0'),
                Err(_) => true,
            },
            forall|name: &str| !name@.contains('\0') ==> #[trigger] lookup.requires((name,)),
        ensures
            match combo_parts(s@) {
                Err(e) => r matches Err(x) && x@ == e,
                Ok(p) => exists|name: &str, k: u32|
                    #![trigger lookup.ensures((name,), k)]
                    {
                        &&& name@ == p.1
                        &&& lookup.ensures((name,), k)
                        &&& match r {
                            Ok(c) => combo_from_lookup(s@, p, k) == Ok::<KeyCombo, Seq<char>>(c),
                            Err(x) => combo_from_lookup(s@, p, k) == Err::<KeyCombo, Seq<char>>(x@),
                        }
                    },
            },
    {
        let parts = match split_combo(s) {
            Ok(p) => p,
            Err(e) => return Err(e),
        };
        let name = parts.key.as_str();
        let keysym = lookup(name);
        let r = Self::from_lookup(s, &parts, keysym);
        proof {
            assert(name@ == parts.key@ && lookup.ensures((name,), keysym));
        }
        r
    }

    /// Finish parsing `s` (split by [`split_combo`] into `parts`), given
    /// the keysym its key name was found to be (`0` when unknown).
    pub fn from_lookup(s: &str, parts: &ComboParts, keysym: u32) -> (r: Result<KeyCombo, String>)
        ensures
            match r {
                Ok(c) => combo_from_lookup(s@, (parts.modifiers, parts.key@), keysym) == Ok::<KeyCombo, Seq<char>>(c),
                Err(e) => combo_from_lookup(s@, (parts.modifiers, parts.key@), keysym) == Err::<KeyCombo, Seq<char>>(e@),
            },
    {
        if keysym == 0 {
            let mut e = String::from_str("unknown key ");
            let q = debug_str(parts.key.as_str());
            e.append(q.as_str());
            e.append(" in ");
            let q2 = debug_str(s);
            e.append(q2.as_str());
            return Err(e);
        }
        Ok(KeyCombo { modifiers: parts.modifiers, keysym: to_lower_keysym(keysym) })
    }

    /// The combo a key press makes: the modifiers held and the keysym it
    /// produced, lowercased as bound combos are.
    pub fn pressed(modifiers: Modifiers, keysym: u32) -> (c: KeyCombo)
        ensures
            c == (KeyCombo { modifiers, keysym: lower_keysym(keysym) }),
    {
        KeyCombo { modifiers, keysym: to_lower_keysym(keysym) }
    }
}

/// The position of the first of `bound` that is `pressed`, or `None`
/// when no binding matches.
pub fn find_binding(bound: &[KeyCombo], pressed: KeyCombo) -> (r: Option<usize>)
    ensures
        match r {
            Some(i) => i < bound@.len() && bound@[i as int] == pressed && forall|j: int|
                0 <= j < i ==> bound@[j] != pressed,
            None => forall|j: int| 0 <= j < bound@.len() ==> bound@[j] != pressed,
        },
{
    let mut i: usize = 0;
    while i < bound.len()
        invariant
            i <= bound@.len(),
            forall|j: int| 0 <= j < i ==> bound@[j] != pressed,
        decreases bound@.len() - i,
    {
        if bound[i] == pressed {
            return Some(i);
        }
        i = i + 1;
    }
    None
}

/// A combo bound to a letter key matches the press of that key whichever
/// case the keyboard reports it in: the bound keysym and the pressed one
/// are both lowercased, and the Shift state is compared separately.
pub proof fn law_letter_case_matches(s: Seq<char>, modifiers: Modifiers, key: Seq<char>, found: u32, reported: u32)
    requires
        found != 0,
        lower_keysym(reported) == lower_keysym(found),
    ensures
        combo_from_lookup(s, (modifiers, key), found) == Ok::<KeyCombo, Seq<char>>(
            KeyCombo { modifiers, keysym: lower_keysym(reported) },
        ),
{
}

/// The grid-relative direction of an action, as config files name it.
#[derive(Debug, Clone, Copy, PartialEq, Eq, Structural)]
pub enum Dir {
    Left,
    Right,
    Up,
    Down,
}

impl From<Dir> for model::Direction {
    fn from(dir: Dir) -> (r: model::Direction) {
        match dir {
            Dir::Left => model::Direction::Left,
            Dir::Right => model::Direction::Right,
            Dir::Up => model::Direction::Up,
            Dir::Down => model::Direction::Down,
        }
    }
}

impl vstd::std_specs::convert::FromSpecImpl<Dir> for model::Direction {
    open spec fn obeys_from_spec() -> bool {
        true
    }

    open spec fn from_spec(dir: Dir) -> model::Direction {
        match dir {
            Dir::Left => model::Direction::Left,
            Dir::Right => model::Direction::Right,
            Dir::Up => model::Direction::Up,
            Dir::Down => model::Direction::Down,
        }
    }
}

} // verus!
