//! Emulator profiles: what `--from mgba` tells a converter.
//!
//! A profile answers three questions a bare file cannot: what kind of producer wrote these bytes,
//! what name that producer writes for itself, and which systems it could plausibly have been
//! emulating.
//!
//! Which name a producer writes is not a preference. A core listed in the registry **must** write
//! its slug, and one with no entry **must** write a reverse-DNS name, so a producer has exactly
//! one spelling. That is why a name that is not a profile here resolves through the registry.

use vstd::prelude::*;
use crate::registry::{
    core_by_any_name, core_with_any_name, core_with_slug, device_kind_names, first_where, lemma_every_core_runs_a_listed_system,
    lemma_every_listed_system_is_found, listed, names_view, system_table, system_with_slug, CoreView,
};
use crate::text::{eq_ignore_ascii_case, same_ignoring_case};

verus! {

/// A named producer of saves.
#[derive(Debug, Clone, PartialEq, Eq)]
pub struct Profile {
    /// What the user typed, and what the CLI lists.
    pub key: &'static str,
    /// How the producer is described in prose.
    pub label: &'static str,
    /// The `device_kind` for bundles this producer wrote.
    pub device_kind: &'static str,
    /// The `app` name, already resolved to the arm this producer must take.
    pub app: &'static str,
    /// The systems this producer covers, as system slugs. Empty means "many, ask elsewhere".
    pub systems: Vec<&'static str>,
}

/// What a profile holds, as values.
pub struct ProfileView {
    pub key: Seq<char>,
    pub label: Seq<char>,
    pub device_kind: Seq<char>,
    pub app: Seq<char>,
    pub systems: Seq<Seq<char>>,
}

impl View for Profile {
    type V = ProfileView;

    open spec fn view(&self) -> ProfileView {
        ProfileView {
            key: self.key@,
            label: self.label@,
            device_kind: self.device_kind@,
            app: self.app@,
            systems: names_view(self.systems@),
        }
    }
}

/// The views of a run of profiles.
pub open spec fn profile_views(s: Seq<Profile>) -> Seq<ProfileView> {
    Seq::new(s.len(), |i: int| s[i]@)
}

impl Profile {
    /// The one system this profile can mean, when it can only mean one.
    pub fn only_system(&self) -> (r: Option<&'static str>)
        ensures
            self.systems@.len() == 1 ==> r == Some(self.systems@[0]),
            self.systems@.len() != 1 ==> r is None,
    {
        if self.systems.len() == 1 {
            Some(self.systems[0])
        } else {
            None
        }
    }
}

/// A profile entry as values.
pub open spec fn entry(
    key: &'static str,
    label: &'static str,
    device_kind: &'static str,
    app: &'static str,
    systems: Seq<Seq<char>>,
) -> ProfileView {
    ProfileView { key: key@, label: label@, device_kind: device_kind@, app: app@, systems }
}

/// The producers this library knows by name.
///
/// RetroArch is a frontend rather than a core, and the registry covers cores only, so it names
/// itself in reverse-DNS. Standalone Mednafen is not one of the Beetle forks the registry lists,
/// and reverses no domain of its own, so it takes a name in the `x` tree.
pub open spec fn profile_table() -> Seq<ProfileView> {
    seq![
        entry("retroarch", "RetroArch (any libretro core)", "emulator", "com.libretro.retroarch", seq![]),
        entry("mednafen", "Mednafen", "emulator", "x.mednafen", seq![]),
        entry("mgba", "mGBA", "emulator", "mgba", seq!["gba"@, "gbc"@, "gb"@]),
        entry("snes9x", "Snes9x", "emulator", "snes9x", seq!["snes"@]),
        entry("bsnes", "bsnes", "emulator", "bsnes", seq!["snes"@]),
        entry("gambatte", "Gambatte", "emulator", "gambatte", seq!["gb"@, "gbc"@]),
        entry("sameboy", "SameBoy", "emulator", "sameboy", seq!["gb"@, "gbc"@]),
        entry("duckstation", "DuckStation", "emulator", "duckstation", seq!["psx"@]),
        entry("pcsx2", "PCSX2", "emulator", "net.pcsx2", seq!["ps2"@]),
        entry("dolphin", "Dolphin", "emulator", "org.dolphin-emu", seq!["gc"@, "wii"@]),
        entry("mupen64plus", "Mupen64Plus-Next", "emulator", "mupen64plus-next", seq!["n64"@]),
        entry("flycast", "Flycast", "emulator", "x.flycast", seq!["dreamcast"@]),
        entry("everdrive", "EverDrive flash cartridge", "flashcart", "x.everdrive", seq![]),
        entry("gboperator", "Epilogue GB Operator", "cartridge-reader", "com.epilogue.operator", seq!["gb"@, "gbc"@, "gba"@]),
        entry("gbxcart", "GBxCart RW", "cartridge-reader", "com.insidegadgets.gbxcart", seq!["gb"@, "gbc"@, "gba"@]),
    ]
}

/// Builds a profile.
fn make(
    key: &'static str,
    label: &'static str,
    device_kind: &'static str,
    app: &'static str,
    systems: Vec<&'static str>,
) -> (r: Profile)
    ensures
        r@ == entry(key, label, device_kind, app, names_view(systems@)),
{
    Profile { key, label, device_kind, app, systems }
}

/// Every profile this library knows.
pub fn profiles() -> (r: Vec<Profile>)
    ensures
        profile_views(r@) == profile_table(),
{
    let mut r: Vec<Profile> = Vec::new();
    r.push(make("retroarch", "RetroArch (any libretro core)", "emulator", "com.libretro.retroarch", crate::registry::no_names()));
    r.push(make("mednafen", "Mednafen", "emulator", "x.mednafen", crate::registry::no_names()));
    r.push(make("mgba", "mGBA", "emulator", "mgba", crate::registry::three_names("gba", "gbc", "gb")));
    r.push(make("snes9x", "Snes9x", "emulator", "snes9x", crate::registry::one_name("snes")));
    r.push(make("bsnes", "bsnes", "emulator", "bsnes", crate::registry::one_name("snes")));
    r.push(make("gambatte", "Gambatte", "emulator", "gambatte", crate::registry::two_names("gb", "gbc")));
    r.push(make("sameboy", "SameBoy", "emulator", "sameboy", crate::registry::two_names("gb", "gbc")));
    r.push(make("duckstation", "DuckStation", "emulator", "duckstation", crate::registry::one_name("psx")));
    r.push(make("pcsx2", "PCSX2", "emulator", "net.pcsx2", crate::registry::one_name("ps2")));
    r.push(make("dolphin", "Dolphin", "emulator", "org.dolphin-emu", crate::registry::two_names("gc", "wii")));
    r.push(make("mupen64plus", "Mupen64Plus-Next", "emulator", "mupen64plus-next", crate::registry::one_name("n64")));
    r.push(make("flycast", "Flycast", "emulator", "x.flycast", crate::registry::one_name("dreamcast")));
    r.push(make("everdrive", "EverDrive flash cartridge", "flashcart", "x.everdrive", crate::registry::no_names()));
    r.push(make("gboperator", "Epilogue GB Operator", "cartridge-reader", "com.epilogue.operator", crate::registry::three_names("gb", "gbc", "gba")));
    r.push(make("gbxcart", "GBxCart RW", "cartridge-reader", "com.insidegadgets.gbxcart", crate::registry::three_names("gb", "gbc", "gba")));
    assert(profile_views(r@) =~= profile_table());
    r
}

/// Every profile names a device kind the vocabulary defines and only systems the registry lists;
/// so does the profile any listed core stands for.
pub proof fn lemma_every_profile_names_listed_things()
    ensures
        forall|i: int|
            0 <= i < profile_table().len() ==> listed(device_kind_names(), #[trigger] profile_table()[i].device_kind),
        forall|i: int, j: int|
            0 <= i < profile_table().len() && 0 <= j < profile_table()[i].systems.len()
                ==> #[trigger] system_with_slug(profile_table()[i].systems[j]) is Some,
        forall|c: CoreView| listed(device_kind_names(), #[trigger] core_profile(c).device_kind),
{
    let kinds = device_kind_names();
    assert(kinds[0] == "cartridge-reader"@ && kinds[1] == "emulator"@ && kinds[2] == "flashcart"@);
    assert forall|c: CoreView| listed(device_kind_names(), #[trigger] core_profile(c).device_kind) by {
        assert(kinds[1] == core_profile(c).device_kind);
    }
    assert forall|i: int| 0 <= i < profile_table().len() implies listed(
        device_kind_names(),
        #[trigger] profile_table()[i].device_kind,
    ) by {
        if profile_table()[i].device_kind == "emulator"@ {
            assert(kinds[1] == profile_table()[i].device_kind);
        } else if profile_table()[i].device_kind == "flashcart"@ {
            assert(kinds[2] == profile_table()[i].device_kind);
        } else {
            assert(kinds[0] == profile_table()[i].device_kind);
        }
    }
    lemma_every_listed_system_is_found();
    let t = system_table();
    assert forall|i: int, j: int|
        0 <= i < profile_table().len() && 0 <= j < profile_table()[i].systems.len() implies #[trigger] system_with_slug(
        profile_table()[i].systems[j],
    ) is Some by {
        assert(system_with_slug(t[1].slug) is Some);
        assert(system_with_slug(t[2].slug) is Some);
        assert(system_with_slug(t[3].slug) is Some);
        assert(system_with_slug(t[4].slug) is Some);
        assert(system_with_slug(t[5].slug) is Some);
        assert(system_with_slug(t[7].slug) is Some);
        assert(system_with_slug(t[10].slug) is Some);
        assert(system_with_slug(t[11].slug) is Some);
        assert(system_with_slug(t[14].slug) is Some);
        assert(system_with_slug(t[15].slug) is Some);
    }
}

/// The profile a listed core stands for names only listed systems.
pub proof fn lemma_a_core_profile_names_listed_systems(i: int, j: int)
    requires
        0 <= i < crate::registry::core_table().len(),
        0 <= j < core_profile(crate::registry::core_table()[i]).systems.len(),
    ensures
        system_with_slug(core_profile(crate::registry::core_table()[i]).systems[j]) is Some,
{
    lemma_every_core_runs_a_listed_system();
}

/// The profile a listed core stands for: its slug as key and name, its name as label, an
/// emulator, and the systems it runs.
pub open spec fn core_profile(c: CoreView) -> ProfileView {
    ProfileView { key: c.slug, label: c.name, device_kind: "emulator"@, app: c.slug, systems: c.systems }
}

/// The core a name resolves to through the registry: an exact slug first, then any name.
pub open spec fn core_resolved(name: Seq<char>) -> Option<CoreView> {
    if core_with_slug(name) is Some {
        core_with_slug(name)
    } else {
        core_with_any_name(name)
    }
}

/// The profile a name denotes: one listed here under that key, whatever its case, or else the
/// profile of the registry core it names.
pub open spec fn profile_named(name: Seq<char>) -> Option<ProfileView> {
    let listed = first_where(profile_table(), |p: ProfileView| same_ignoring_case(p.key, name));
    if listed is Some {
        listed
    } else {
        match core_resolved(name) {
            Some(c) => Some(core_profile(c)),
            None => None,
        }
    }
}

/// The view of an optional profile.
pub open spec fn opt_profile(o: Option<Profile>) -> Option<ProfileView> {
    match o {
        Some(p) => Some(p@),
        None => None,
    }
}

/// The profile a name denotes.
///
/// A name that is not a profile but *is* a listed emulator core resolves through the registry
/// instead, so `--from fceumm` works without this module having to list every core.
pub fn profile(name: &str) -> (r: Option<Profile>)
    ensures
        opt_profile(r) == profile_named(name@),
{
    let mut table = profiles();
    let ghost p = |p: ProfileView| same_ignoring_case(p.key, name@);
    let mut i: usize = 0;
    assert(profile_table().skip(0) =~= profile_table());
    while i < table.len()
        invariant
            i <= table@.len(),
            profile_views(table@) == profile_table(),
            p == (|p: ProfileView| same_ignoring_case(p.key, name@)),
            first_where(profile_table(), p) == first_where(profile_table().skip(i as int), p),
        decreases table@.len() - i,
    {
        proof {
            crate::registry::lemma_first_where_step(profile_table(), p, i as int);
        }
        if eq_ignore_ascii_case(table[i].key, name) {
            return Some(table.remove(i));
        }
        i = i + 1;
    }
    assert(profile_table().skip(15) =~= Seq::<ProfileView>::empty());
    // A listed core writes its slug, which is exactly what the registry hands back.
    match core_by_any_name(name) {
        Some(core) => Some(
            Profile { key: core.slug, label: core.name, device_kind: "emulator", app: core.slug, systems: core.systems },
        ),
        None => None,
    }
}

/// The system a conversion settles on: the one the user named, else the one a ROM's header
/// names, else the one system a producer's profile covers, where it covers exactly one.
pub open spec fn settled(
    stated: Option<Seq<char>>,
    rom: Option<Seq<char>>,
    profile: Option<ProfileView>,
) -> Option<Seq<char>> {
    match stated {
        Some(s) => Some(s),
        None => match rom {
            Some(s) => Some(s),
            None => match profile {
                Some(p) => if p.systems.len() == 1 {
                    Some(p.systems[0])
                } else {
                    None
                },
                None => None,
            },
        },
    }
}

/// Settles which system a save is for when the user did not say: a ROM's header knows, and a
/// profile that covers exactly one system can only mean that one.
pub fn settle_system(stated: Option<&str>, rom: Option<&'static str>, profile: Option<&Profile>) -> (r:
    Option<String>)
    ensures
        (match r {
            Some(s) => Some(s@),
            None => None::<Seq<char>>,
        }) == settled(
            match stated {
                Some(s) => Some(s@),
                None => None,
            },
            match rom {
                Some(s) => Some(s@),
                None => None,
            },
            match profile {
                Some(p) => Some(p@),
                None => None,
            },
        ),
{
    if let Some(s) = stated {
        return Some(s.to_owned());
    }
    if let Some(s) = rom {
        return Some(s.to_owned());
    }
    match profile {
        Some(p) => match p.only_system() {
            Some(s) => Some(s.to_owned()),
            None => None,
        },
        None => None,
    }
}

} // verus!
