//! The registries a save container draws its vocabularies from.
//!
//! Five of a bundle's fields take a name a producer **cannot** mint: a header's `system`, a card's
//! `format`, a part's `role` and `binding`, and a source's `device_kind`. Those name categories
//! everyone shares, so minting into one would not extend it but split it. This module is those
//! vocabularies, as data, and the lookups over them.
//!
//! The tables are first-come rather than normative, so a name absent here is not thereby invalid:
//! [`system`] returning `None` means "not listed", never "malformed". The names other tools use
//! for the same thing are recorded so a producer can map its input onto the right slug, and they
//! are never emitted.
//!
//! A role ending in `-<n>` names the nth socket of the kind its prefix names, so a consumer that
//! recognises `memcard-` matches `memcard-8` without that exact role being listed.

use vstd::prelude::*;
use crate::text::{eq_ignore_ascii_case, same_ignoring_case, str_eq};

verus! {

/// The first item of a sequence that meets a condition.
pub open spec fn first_where<A>(s: Seq<A>, p: spec_fn(A) -> bool) -> Option<A>
    decreases s.len(),
{
    if s.len() == 0 {
        None
    } else if p(s[0]) {
        Some(s[0])
    } else {
        first_where(s.drop_first(), p)
    }
}

/// Searching from an index on finds what searching from the start does, once everything before
/// it has failed the condition.
pub proof fn lemma_first_where_step<A>(s: Seq<A>, p: spec_fn(A) -> bool, i: int)
    requires
        0 <= i < s.len(),
    ensures
        first_where(s.skip(i), p) == if p(s[i]) {
            Some(s[i])
        } else {
            first_where(s.skip(i + 1), p)
        },
{
    assert(s.skip(i).drop_first() =~= s.skip(i + 1));
}

/// Whether anything in a sequence meets a condition is whether the search finds something.
pub proof fn lemma_first_where_exists<A>(s: Seq<A>, p: spec_fn(A) -> bool)
    ensures
        first_where(s, p) is Some <==> exists|i: int| 0 <= i < s.len() && p(s[i]),
        first_where(s, p) matches Some(a) ==> p(a),
    decreases s.len(),
{
    if s.len() > 0 {
        lemma_first_where_exists(s.drop_first(), p);
        if !p(s[0]) {
            if exists|i: int| 0 <= i < s.len() && p(s[i]) {
                let i = choose|i: int| 0 <= i < s.len() && p(s[i]);
                assert(s.drop_first()[i - 1] == s[i]);
            }
            if exists|i: int| 0 <= i < s.drop_first().len() && p(s.drop_first()[i]) {
                let i = choose|i: int| 0 <= i < s.drop_first().len() && p(s.drop_first()[i]);
                assert(s[i + 1] == s.drop_first()[i]);
            }
        }
    }
}

/// The views of a list of names.
pub open spec fn names_view(names: Seq<&'static str>) -> Seq<Seq<char>> {
    Seq::new(names.len(), |i: int| names[i]@)
}

/// Whether a name is one of a list, compared whole.
pub open spec fn listed(names: Seq<Seq<char>>, name: Seq<char>) -> bool {
    exists|i: int| 0 <= i < names.len() && names[i] == name
}

/// Whether a name is one of a list, whatever its case.
pub open spec fn listed_ignoring_case(names: Seq<Seq<char>>, name: Seq<char>) -> bool {
    exists|i: int| 0 <= i < names.len() && same_ignoring_case(names[i], name)
}

/// Whether a name is one of a list, compared whole.
fn contains_name(names: &Vec<&'static str>, name: &str) -> (r: bool)
    ensures
        r == listed(names_view(names@), name@),
{
    let mut i: usize = 0;
    while i < names.len()
        invariant
            i <= names@.len(),
            forall|k: int| 0 <= k < i ==> names@[k]@ != name@,
        decreases names@.len() - i,
    {
        if str_eq(names[i], name) {
            assert(names_view(names@)[i as int] == name@);
            return true;
        }
        i = i + 1;
    }
    proof {
        if listed(names_view(names@), name@) {
            let k = choose|k: int| 0 <= k < names@.len() && names_view(names@)[k] == name@;
            assert(names@[k]@ == name@);
        }
    }
    false
}

/// Whether a name is one of a list, whatever its case.
fn contains_ignoring_case(names: &Vec<&'static str>, name: &str) -> (r: bool)
    ensures
        r == listed_ignoring_case(names_view(names@), name@),
{
    let mut i: usize = 0;
    while i < names.len()
        invariant
            i <= names@.len(),
            forall|k: int| 0 <= k < i ==> !same_ignoring_case(#[trigger] names@[k]@, name@),
        decreases names@.len() - i,
    {
        if eq_ignore_ascii_case(names[i], name) {
            assert(same_ignoring_case(names_view(names@)[i as int], name@));
            return true;
        }
        i = i + 1;
    }
    proof {
        if listed_ignoring_case(names_view(names@), name@) {
            let k = choose|k: int| 0 <= k < names@.len() && same_ignoring_case(names_view(names@)[k], name@);
            assert(!same_ignoring_case(names@[k]@, name@));
        }
    }
    false
}

/// A list of no names.
pub(crate) fn no_names() -> (r: Vec<&'static str>)
    ensures
        names_view(r@) == Seq::<Seq<char>>::empty(),
{
    let r: Vec<&'static str> = Vec::new();
    assert(names_view(r@) =~= Seq::<Seq<char>>::empty());
    r
}

/// A list of one name.
pub(crate) fn one_name(a: &'static str) -> (r: Vec<&'static str>)
    ensures
        names_view(r@) == seq![a@],
{
    let mut r: Vec<&'static str> = Vec::new();
    r.push(a);
    assert(names_view(r@) =~= seq![a@]);
    r
}

/// A list of two names.
pub(crate) fn two_names(a: &'static str, b: &'static str) -> (r: Vec<&'static str>)
    ensures
        names_view(r@) == seq![a@, b@],
{
    let mut r: Vec<&'static str> = Vec::new();
    r.push(a);
    r.push(b);
    assert(names_view(r@) =~= seq![a@, b@]);
    r
}

/// A list of three names.
pub(crate) fn three_names(a: &'static str, b: &'static str, c: &'static str) -> (r: Vec<&'static str>)
    ensures
        names_view(r@) == seq![a@, b@, c@],
{
    let mut r: Vec<&'static str> = Vec::new();
    r.push(a);
    r.push(b);
    r.push(c);
    assert(names_view(r@) =~= seq![a@, b@, c@]);
    r
}

// ---------------------------------------------------------------------------------------------
// Systems.

/// A gaming system, and the names other tools use for it.
#[derive(Debug, Clone, PartialEq, Eq)]
pub struct System {
    /// The canonical slug, which is what a bundle's `system` field carries.
    pub slug: &'static str,
    /// The system's name in prose.
    pub name: &'static str,
    /// Other names for the same system. Never emitted.
    pub aliases: Vec<&'static str>,
}

/// What a system entry holds, as values.
pub struct SystemView {
    pub slug: Seq<char>,
    pub name: Seq<char>,
    pub aliases: Seq<Seq<char>>,
}

impl View for System {
    type V = SystemView;

    open spec fn view(&self) -> SystemView {
        SystemView { slug: self.slug@, name: self.name@, aliases: names_view(self.aliases@) }
    }
}

/// The views of a run of systems.
pub open spec fn system_views(s: Seq<System>) -> Seq<SystemView> {
    Seq::new(s.len(), |i: int| s[i]@)
}

/// A system entry as values.
pub open spec fn sys(slug: &'static str, name: &'static str, aliases: Seq<Seq<char>>) -> SystemView {
    SystemView { slug: slug@, name: name@, aliases }
}

/// Every listed system, sorted by slug.
pub open spec fn system_table() -> Seq<SystemView> {
    seq![
        sys("atari-2600", "Atari 2600", seq!["2600"@]),
        sys("dreamcast", "Dreamcast", seq![]),
        sys("gb", "Game Boy", seq!["gameboy"@]),
        sys("gba", "Game Boy Advance", seq![]),
        sys("gbc", "Game Boy Color", seq![]),
        sys("gc", "GameCube", seq!["ngc"@]),
        sys("genesis", "Genesis / Mega Drive", seq!["megadrive"@, "md"@]),
        sys("n64", "Nintendo 64", seq![]),
        sys("neogeo", "Neo Geo", seq![]),
        sys("nes", "Nintendo Entertainment System", seq![]),
        sys("ps2", "PlayStation 2", seq![]),
        sys("psx", "PlayStation", seq!["ps1"@, "playstation"@]),
        sys("saturn", "Saturn", seq![]),
        sys("sega-cd", "Sega CD / Mega-CD", seq![]),
        sys("snes", "Super Nintendo Entertainment System", seq![]),
        sys("wii", "Wii", seq![]),
    ]
}

/// Every listed system, sorted by slug.
pub fn systems() -> (r: Vec<System>)
    ensures
        system_views(r@) == system_table(),
{
    let mut r: Vec<System> = Vec::new();
    r.push(System { slug: "atari-2600", name: "Atari 2600", aliases: one_name("2600") });
    r.push(System { slug: "dreamcast", name: "Dreamcast", aliases: no_names() });
    r.push(System { slug: "gb", name: "Game Boy", aliases: one_name("gameboy") });
    r.push(System { slug: "gba", name: "Game Boy Advance", aliases: no_names() });
    r.push(System { slug: "gbc", name: "Game Boy Color", aliases: no_names() });
    r.push(System { slug: "gc", name: "GameCube", aliases: one_name("ngc") });
    r.push(System { slug: "genesis", name: "Genesis / Mega Drive", aliases: two_names("megadrive", "md") });
    r.push(System { slug: "n64", name: "Nintendo 64", aliases: no_names() });
    r.push(System { slug: "neogeo", name: "Neo Geo", aliases: no_names() });
    r.push(System { slug: "nes", name: "Nintendo Entertainment System", aliases: no_names() });
    r.push(System { slug: "ps2", name: "PlayStation 2", aliases: no_names() });
    r.push(System { slug: "psx", name: "PlayStation", aliases: two_names("ps1", "playstation") });
    r.push(System { slug: "saturn", name: "Saturn", aliases: no_names() });
    r.push(System { slug: "sega-cd", name: "Sega CD / Mega-CD", aliases: no_names() });
    r.push(System { slug: "snes", name: "Super Nintendo Entertainment System", aliases: no_names() });
    r.push(System { slug: "wii", name: "Wii", aliases: no_names() });
    assert(system_views(r@) =~= system_table());
    r
}

/// The system a slug names, compared whole.
pub open spec fn system_with_slug(slug: Seq<char>) -> Option<SystemView> {
    first_where(system_table(), |s: SystemView| s.slug == slug)
}

/// The system a slug or any of its recorded aliases names, whatever its case.
pub open spec fn system_with_any_name(name: Seq<char>) -> Option<SystemView> {
    first_where(
        system_table(),
        |s: SystemView| same_ignoring_case(s.slug, name) || listed_ignoring_case(s.aliases, name),
    )
}

/// A listed system is found by its own slug.
proof fn lemma_listed_system_found(k: int)
    requires
        0 <= k < system_table().len(),
    ensures
        system_with_slug(system_table()[k].slug) is Some,
{
    let slug = system_table()[k].slug;
    lemma_first_where_exists(system_table(), |s: SystemView| s.slug == slug);
}

/// Every listed system is found by its own slug.
pub proof fn lemma_every_listed_system_is_found()
    ensures
        forall|k: int| 0 <= k < system_table().len() ==> #[trigger] system_with_slug(system_table()[k].slug) is Some,
{
    assert forall|k: int| 0 <= k < system_table().len() implies #[trigger] system_with_slug(
        system_table()[k].slug,
    ) is Some by {
        lemma_listed_system_found(k);
    }
}

/// The view of an optional system.
pub open spec fn opt_system(o: Option<System>) -> Option<SystemView> {
    match o {
        Some(s) => Some(s@),
        None => None,
    }
}

/// The system a slug names, if it is listed.
pub fn system(slug: &str) -> (r: Option<System>)
    ensures
        opt_system(r) == system_with_slug(slug@),
{
    let mut table = systems();
    let ghost p = |s: SystemView| s.slug == slug@;
    let mut i: usize = 0;
    assert(system_table().skip(0) =~= system_table());
    while i < table.len()
        invariant
            i <= table@.len(),
            system_views(table@) == system_table(),
            p == (|s: SystemView| s.slug == slug@),
            first_where(system_table(), p) == first_where(system_table().skip(i as int), p),
        decreases table@.len() - i,
    {
        proof {
            lemma_first_where_step(system_table(), p, i as int);
        }
        if str_eq(table[i].slug, slug) {
            return Some(table.remove(i));
        }
        i = i + 1;
    }
    None
}

/// The system a slug or any of its recorded aliases names.
///
/// Matching is case-insensitive, because the names this maps from are directory names and
/// database labels rather than values out of a bundle. The slug it returns is always the
/// canonical one. An exact slug is looked up first.
pub fn system_by_any_name(name: &str) -> (r: Option<System>)
    ensures
        system_with_slug(name@) is Some ==> opt_system(r) == system_with_slug(name@),
        system_with_slug(name@) is None ==> opt_system(r) == system_with_any_name(name@),
{
    let exact = system(name);
    if exact.is_some() {
        return exact;
    }
    let mut table = systems();
    let ghost p = |s: SystemView| same_ignoring_case(s.slug, name@) || listed_ignoring_case(s.aliases, name@);
    let mut i: usize = 0;
    assert(system_table().skip(0) =~= system_table());
    while i < table.len()
        invariant
            i <= table@.len(),
            system_views(table@) == system_table(),
            system_with_slug(name@) is None,
            p == (|s: SystemView| same_ignoring_case(s.slug, name@) || listed_ignoring_case(s.aliases, name@)),
            first_where(system_table(), p) == first_where(system_table().skip(i as int), p),
        decreases table@.len() - i,
    {
        proof {
            lemma_first_where_step(system_table(), p, i as int);
        }
        if eq_ignore_ascii_case(table[i].slug, name) || contains_ignoring_case(&table[i].aliases, name) {
            return Some(table.remove(i));
        }
        i = i + 1;
    }
    None
}

// ---------------------------------------------------------------------------------------------
// Cores.

/// What hosts an emulator core.
#[derive(Debug, Clone, Copy, PartialEq, Eq, Structural)]
pub enum CoreKind {
    /// A software core hosted by RetroArch and most handheld firmwares. Its canonical name is the
    /// core's `library_name`, the exact string that names a `saves/<core>/` folder.
    Libretro,
    /// A MiSTer FPGA core, named for its repository in the MiSTer-devel organization.
    MiSTer,
    /// An Analogue Pocket openFPGA core, named for the `Author.Platform` folder it installs to.
    OpenFpga,
}

/// How a core lays out a cartridge clock it keeps beside a save.
#[derive(Debug, Clone, Copy, PartialEq, Eq, Structural)]
pub enum ClockLayout {
    /// Appended to the save: ten registers and an instant.
    Appended,
    /// Appended to the save: an instant and the registers bit-packed, padded to a reserved size.
    Packed {
        /// How many bytes the footer is padded to.
        reserved: usize,
    },
    /// A separate file holding the instant the clock counts from.
    Sidecar,
}

/// An emulator core: the engine that runs the game, as distinct from the frontend hosting it.
#[derive(Debug, Clone, PartialEq, Eq)]
pub struct Core {
    /// The canonical slug, which is what a source's `app` field carries for this core.
    ///
    /// A core listed here **must** write this rather than a reverse-DNS name, so that one core
    /// has exactly one spelling. mGBA is `mgba`, never `io.mgba`.
    pub slug: &'static str,
    /// The core's name as its authors write it.
    pub name: &'static str,
    /// What hosts it.
    pub kind: CoreKind,
    /// The systems it runs, as system slugs.
    pub systems: Vec<&'static str>,
    /// Former names, SD-card folders and rebuilds that count as the same core. Never emitted.
    pub aliases: Vec<&'static str>,
    /// How it lays out a cartridge clock, where the registry records one.
    pub clock: Option<ClockLayout>,
}

/// What a core entry holds, as values.
pub struct CoreView {
    pub slug: Seq<char>,
    pub name: Seq<char>,
    pub kind: CoreKind,
    pub systems: Seq<Seq<char>>,
    pub aliases: Seq<Seq<char>>,
    pub clock: Option<ClockLayout>,
}

impl View for Core {
    type V = CoreView;

    open spec fn view(&self) -> CoreView {
        CoreView {
            slug: self.slug@,
            name: self.name@,
            kind: self.kind,
            systems: names_view(self.systems@),
            aliases: names_view(self.aliases@),
            clock: self.clock,
        }
    }
}

/// The views of a run of cores.
pub open spec fn core_views(s: Seq<Core>) -> Seq<CoreView> {
    Seq::new(s.len(), |i: int| s[i]@)
}

/// A core entry as values.
pub open spec fn core_entry(
    slug: &'static str,
    name: &'static str,
    kind: CoreKind,
    systems: Seq<Seq<char>>,
    aliases: Seq<Seq<char>>,
    clock: Option<ClockLayout>,
) -> CoreView {
    CoreView { slug: slug@, name: name@, kind, systems, aliases, clock }
}

/// Every listed core, sorted by slug.
pub open spec fn core_table() -> Seq<CoreView> {
    seq![
        core_entry("beetle-saturn", "Beetle Saturn", CoreKind::Libretro, seq!["saturn"@], seq!["Mednafen Saturn"@], None),
        core_entry("bsnes", "bsnes", CoreKind::Libretro, seq!["snes"@], seq![], None),
        core_entry("budude2-gbc", "budude2 GBC", CoreKind::OpenFpga, seq!["gb"@, "gbc"@], seq![], Some(ClockLayout::Packed { reserved: 16 })),
        core_entry("duckstation", "DuckStation", CoreKind::Libretro, seq!["psx"@], seq![], None),
        core_entry("fceumm", "FCEUmm", CoreKind::Libretro, seq!["nes"@], seq![], None),
        core_entry("gambatte", "Gambatte", CoreKind::Libretro, seq!["gb"@, "gbc"@], seq![], Some(ClockLayout::Sidecar)),
        core_entry("gameboy-mister", "Gameboy_MiSTer", CoreKind::MiSTer, seq!["gb"@, "gbc"@], seq![], Some(ClockLayout::Packed { reserved: 512 })),
        core_entry("genesis-plus-gx-wide", "Genesis Plus GX Wide", CoreKind::Libretro, seq!["genesis"@, "sega-cd"@], seq![], None),
        core_entry("megacd-mister", "MegaCD_MiSTer", CoreKind::MiSTer, seq!["sega-cd"@], seq![], None),
        core_entry("megadrive-mister", "MegaDrive_MiSTer", CoreKind::MiSTer, seq!["genesis"@], seq!["Genesis_MiSTer"@], None),
        core_entry("mgba", "mGBA", CoreKind::Libretro, seq!["gb"@, "gbc"@, "gba"@], seq![], Some(ClockLayout::Appended)),
        core_entry("mupen64plus-next", "Mupen64Plus-Next", CoreKind::Libretro, seq!["n64"@], seq![], None),
        core_entry("n64-mister", "N64_MiSTer", CoreKind::MiSTer, seq!["n64"@], seq![], None),
        core_entry("psx-mister", "PSX_MiSTer", CoreKind::MiSTer, seq!["psx"@], seq![], None),
        core_entry("sameboy", "SameBoy", CoreKind::Libretro, seq!["gb"@, "gbc"@], seq![], Some(ClockLayout::Appended)),
        core_entry("saturn-mister", "Saturn_MiSTer", CoreKind::MiSTer, seq!["saturn"@], seq![], None),
        core_entry("sgb-mister", "SGB_MiSTer", CoreKind::MiSTer, seq!["gb"@, "gbc"@], seq![], Some(ClockLayout::Packed { reserved: 512 })),
        core_entry("snes9x", "Snes9x", CoreKind::Libretro, seq!["snes"@], seq![], None),
        core_entry("spiritualized-gb", "spiritualized GB", CoreKind::OpenFpga, seq!["gb"@], seq![], Some(ClockLayout::Packed { reserved: 16 })),
        core_entry("spiritualized-supergb", "spiritualized Super GB", CoreKind::OpenFpga, seq!["gb"@, "gbc"@], seq![], Some(ClockLayout::Packed { reserved: 16 })),
    ]
}

/// Every system a listed core runs is itself a listed system.
pub proof fn lemma_every_core_runs_a_listed_system()
    ensures
        forall|i: int, j: int|
            0 <= i < core_table().len() && 0 <= j < core_table()[i].systems.len()
                ==> #[trigger] system_with_slug(core_table()[i].systems[j]) is Some,
{
    lemma_every_listed_system_is_found();
    let t = system_table();
    assert forall|i: int, j: int|
        0 <= i < core_table().len() && 0 <= j < core_table()[i].systems.len() implies #[trigger] system_with_slug(
        core_table()[i].systems[j],
    ) is Some by {
        assert(system_with_slug(t[0].slug) is Some);
        assert(system_with_slug(t[1].slug) is Some);
        assert(system_with_slug(t[2].slug) is Some);
        assert(system_with_slug(t[3].slug) is Some);
        assert(system_with_slug(t[4].slug) is Some);
        assert(system_with_slug(t[5].slug) is Some);
        assert(system_with_slug(t[6].slug) is Some);
        assert(system_with_slug(t[7].slug) is Some);
        assert(system_with_slug(t[8].slug) is Some);
        assert(system_with_slug(t[9].slug) is Some);
        assert(system_with_slug(t[10].slug) is Some);
        assert(system_with_slug(t[11].slug) is Some);
        assert(system_with_slug(t[12].slug) is Some);
        assert(system_with_slug(t[13].slug) is Some);
        assert(system_with_slug(t[14].slug) is Some);
        assert(system_with_slug(t[15].slug) is Some);
    }
}

/// Every listed core, sorted by slug.
pub fn cores() -> (r: Vec<Core>)
    ensures
        core_views(r@) == core_table(),
{
    let mut r: Vec<Core> = Vec::new();
    r.push(
        Core {
            slug: "beetle-saturn",
            name: "Beetle Saturn",
            kind: CoreKind::Libretro,
            systems: one_name("saturn"),
            aliases: one_name("Mednafen Saturn"),
            clock: None,
        },
    );
    r.push(
        Core {
            slug: "bsnes",
            name: "bsnes",
            kind: CoreKind::Libretro,
            systems: one_name("snes"),
            aliases: no_names(),
            clock: None,
        },
    );
    r.push(
        Core {
            slug: "budude2-gbc",
            name: "budude2 GBC",
            kind: CoreKind::OpenFpga,
            systems: two_names("gb", "gbc"),
            aliases: no_names(),
            clock: Some(ClockLayout::Packed { reserved: 16 }),
        },
    );
    r.push(
        Core {
            slug: "duckstation",
            name: "DuckStation",
            kind: CoreKind::Libretro,
            systems: one_name("psx"),
            aliases: no_names(),
            clock: None,
        },
    );
    r.push(
        Core {
            slug: "fceumm",
            name: "FCEUmm",
            kind: CoreKind::Libretro,
            systems: one_name("nes"),
            aliases: no_names(),
            clock: None,
        },
    );
    r.push(
        Core {
            slug: "gambatte",
            name: "Gambatte",
            kind: CoreKind::Libretro,
            systems: two_names("gb", "gbc"),
            aliases: no_names(),
            clock: Some(ClockLayout::Sidecar),
        },
    );
    r.push(
        Core {
            slug: "gameboy-mister",
            name: "Gameboy_MiSTer",
            kind: CoreKind::MiSTer,
            systems: two_names("gb", "gbc"),
            aliases: no_names(),
            clock: Some(ClockLayout::Packed { reserved: 512 }),
        },
    );
    r.push(
        Core {
            slug: "genesis-plus-gx-wide",
            name: "Genesis Plus GX Wide",
            kind: CoreKind::Libretro,
            systems: two_names("genesis", "sega-cd"),
            aliases: no_names(),
            clock: None,
        },
    );
    r.push(
        Core {
            slug: "megacd-mister",
            name: "MegaCD_MiSTer",
            kind: CoreKind::MiSTer,
            systems: one_name("sega-cd"),
            aliases: no_names(),
            clock: None,
        },
    );
    r.push(
        Core {
            slug: "megadrive-mister",
            name: "MegaDrive_MiSTer",
            kind: CoreKind::MiSTer,
            systems: one_name("genesis"),
            aliases: one_name("Genesis_MiSTer"),
            clock: None,
        },
    );
    r.push(
        Core {
            slug: "mgba",
            name: "mGBA",
            kind: CoreKind::Libretro,
            systems: three_names("gb", "gbc", "gba"),
            aliases: no_names(),
            clock: Some(ClockLayout::Appended),
        },
    );
    r.push(
        Core {
            slug: "mupen64plus-next",
            name: "Mupen64Plus-Next",
            kind: CoreKind::Libretro,
            systems: one_name("n64"),
            aliases: no_names(),
            clock: None,
        },
    );
    r.push(
        Core {
            slug: "n64-mister",
            name: "N64_MiSTer",
            kind: CoreKind::MiSTer,
            systems: one_name("n64"),
            aliases: no_names(),
            clock: None,
        },
    );
    r.push(
        Core {
            slug: "psx-mister",
            name: "PSX_MiSTer",
            kind: CoreKind::MiSTer,
            systems: one_name("psx"),
            aliases: no_names(),
            clock: None,
        },
    );
    r.push(
        Core {
            slug: "sameboy",
            name: "SameBoy",
            kind: CoreKind::Libretro,
            systems: two_names("gb", "gbc"),
            aliases: no_names(),
            clock: Some(ClockLayout::Appended),
        },
    );
    r.push(
        Core {
            slug: "saturn-mister",
            name: "Saturn_MiSTer",
            kind: CoreKind::MiSTer,
            systems: one_name("saturn"),
            aliases: no_names(),
            clock: None,
        },
    );
    r.push(
        Core {
            slug: "sgb-mister",
            name: "SGB_MiSTer",
            kind: CoreKind::MiSTer,
            systems: two_names("gb", "gbc"),
            aliases: no_names(),
            clock: Some(ClockLayout::Packed { reserved: 512 }),
        },
    );
    r.push(
        Core {
            slug: "snes9x",
            name: "Snes9x",
            kind: CoreKind::Libretro,
            systems: one_name("snes"),
            aliases: no_names(),
            clock: None,
        },
    );
    r.push(
        Core {
            slug: "spiritualized-gb",
            name: "spiritualized GB",
            kind: CoreKind::OpenFpga,
            systems: one_name("gb"),
            aliases: no_names(),
            clock: Some(ClockLayout::Packed { reserved: 16 }),
        },
    );
    r.push(
        Core {
            slug: "spiritualized-supergb",
            name: "spiritualized Super GB",
            kind: CoreKind::OpenFpga,
            systems: two_names("gb", "gbc"),
            aliases: no_names(),
            clock: Some(ClockLayout::Packed { reserved: 16 }),
        },
    );
    assert(core_views(r@) =~= core_table());
    r
}

/// The view of an optional core.
pub open spec fn opt_core(o: Option<Core>) -> Option<CoreView> {
    match o {
        Some(c) => Some(c@),
        None => None,
    }
}

/// The core a slug names, compared whole.
pub open spec fn core_with_slug(slug: Seq<char>) -> Option<CoreView> {
    first_where(core_table(), |c: CoreView| c.slug == slug)
}

/// The core a slug, a canonical name or any recorded alias names, whatever its case.
pub open spec fn core_with_any_name(name: Seq<char>) -> Option<CoreView> {
    first_where(
        core_table(),
        |c: CoreView|
            same_ignoring_case(c.slug, name) || same_ignoring_case(c.name, name) || listed_ignoring_case(
                c.aliases,
                name,
            ),
    )
}

/// The core a slug names, if it is listed.
pub fn core_by_slug(slug: &str) -> (r: Option<Core>)
    ensures
        opt_core(r) == core_with_slug(slug@),
{
    let mut table = cores();
    let ghost p = |c: CoreView| c.slug == slug@;
    let mut i: usize = 0;
    assert(core_table().skip(0) =~= core_table());
    while i < table.len()
        invariant
            i <= table@.len(),
            core_views(table@) == core_table(),
            p == (|c: CoreView| c.slug == slug@),
            first_where(core_table(), p) == first_where(core_table().skip(i as int), p),
        decreases table@.len() - i,
    {
        proof {
            lemma_first_where_step(core_table(), p, i as int);
        }
        if str_eq(table[i].slug, slug) {
            return Some(table.remove(i));
        }
        i = i + 1;
    }
    None
}

/// The core a slug, a canonical name, or any recorded alias names.
///
/// This is what maps a `saves/<core>/` folder or a MiSTer core name onto the slug to write. An
/// exact slug is looked up first.
pub fn core_by_any_name(name: &str) -> (r: Option<Core>)
    ensures
        core_with_slug(name@) is Some ==> opt_core(r) == core_with_slug(name@),
        core_with_slug(name@) is None ==> opt_core(r) == core_with_any_name(name@),
{
    let exact = core_by_slug(name);
    if exact.is_some() {
        return exact;
    }
    let mut table = cores();
    let ghost p = |c: CoreView|
        same_ignoring_case(c.slug, name@) || same_ignoring_case(c.name, name@) || listed_ignoring_case(
            c.aliases,
            name@,
        );
    let mut i: usize = 0;
    assert(core_table().skip(0) =~= core_table());
    while i < table.len()
        invariant
            i <= table@.len(),
            core_views(table@) == core_table(),
            core_with_slug(name@) is None,
            p == (|c: CoreView|
                same_ignoring_case(c.slug, name@) || same_ignoring_case(c.name, name@) || listed_ignoring_case(
                    c.aliases,
                    name@,
                )),
            first_where(core_table(), p) == first_where(core_table().skip(i as int), p),
        decreases table@.len() - i,
    {
        proof {
            lemma_first_where_step(core_table(), p, i as int);
        }
        if eq_ignore_ascii_case(table[i].slug, name) || eq_ignore_ascii_case(table[i].name, name)
            || contains_ignoring_case(&table[i].aliases, name) {
            return Some(table.remove(i));
        }
        i = i + 1;
    }
    None
}

/// The cores of a table that run a given system, in table order.
pub open spec fn cores_running(t: Seq<CoreView>, slug: Seq<char>) -> Seq<CoreView>
    decreases t.len(),
{
    if t.len() == 0 {
        Seq::empty()
    } else if listed(t.last().systems, slug) {
        cores_running(t.drop_last(), slug).push(t.last())
    } else {
        cores_running(t.drop_last(), slug)
    }
}

/// Every core that runs a given system, in table order.
pub fn cores_for_system(slug: &str) -> (r: Vec<Core>)
    ensures
        core_views(r@) == cores_running(core_table(), slug@),
{
    let mut table = cores();
    let total = table.len();
    let mut out: Vec<Core> = Vec::new();
    while table.len() > 0
        invariant
            table@.len() <= total,
            total == core_table().len(),
            core_views(table@) == core_table().skip(total - table@.len()),
            core_views(out@) == cores_running(core_table().take(total - table@.len()), slug@),
        decreases table@.len(),
    {
        let ghost k = total - table@.len();
        let ghost before = table@;
        let c = table.remove(0);
        proof {
            assert(core_views(before)[0] == c@);
            assert(c@ == core_table()[k]);
            assert forall|j: int| 0 <= j < table@.len() implies core_views(table@)[j] == core_table().skip(
                k + 1,
            )[j] by {
                assert(table@[j] == before[j + 1]);
                assert(core_views(before)[j + 1] == core_table().skip(k)[j + 1]);
            }
            assert(core_views(table@) =~= core_table().skip(k + 1));
            assert(core_table().take(k + 1).drop_last() =~= core_table().take(k));
        }
        if contains_name(&c.systems, slug) {
            out.push(c);
        }
        assert(core_views(out@) =~= cores_running(core_table().take(k + 1), slug@));
    }
    assert(core_table().take(total as int) =~= core_table());
    out
}

// ---------------------------------------------------------------------------------------------
// Roles.

/// A save role: which socket a save came out of.
#[derive(Debug, Clone, PartialEq, Eq)]
pub struct Role {
    /// The role, as a part's `role` field carries it.
    pub name: &'static str,
    /// What socket it names.
    pub description: &'static str,
    /// Whether it means the same thing on every system.
    pub common: bool,
    /// Systems the registry lists it under. A browsing aid, not a restriction.
    pub systems: Vec<&'static str>,
}

/// What a role entry holds, as values.
pub struct RoleView {
    pub name: Seq<char>,
    pub description: Seq<char>,
    pub common: bool,
    pub systems: Seq<Seq<char>>,
}

impl View for Role {
    type V = RoleView;

    open spec fn view(&self) -> RoleView {
        RoleView {
            name: self.name@,
            description: self.description@,
            common: self.common,
            systems: names_view(self.systems@),
        }
    }
}

/// The views of a run of roles.
pub open spec fn role_views(s: Seq<Role>) -> Seq<RoleView> {
    Seq::new(s.len(), |i: int| s[i]@)
}

/// Every registered role compared whole, sorted by name.
pub open spec fn role_table() -> Seq<RoleView> {
    seq![
        RoleView { name: "cartridge"@, description: "the save memory on a cartridge"@, common: true, systems: seq![] },
        RoleView { name: "internal"@, description: "memory built into the console or cabinet itself"@, common: true, systems: seq![] },
        RoleView { name: "neogeo-card"@, description: "the Neo Geo memory card socket"@, common: false, systems: seq!["neogeo"@] },
        RoleView { name: "primary"@, description: "the one place a system keeps a save"@, common: true, systems: seq![] },
    ]
}

/// Every registered role compared whole, sorted by name.
pub fn roles() -> (r: Vec<Role>)
    ensures
        role_views(r@) == role_table(),
{
    let mut r: Vec<Role> = Vec::new();
    r.push(Role { name: "cartridge", description: "the save memory on a cartridge", common: true, systems: no_names() });
    r.push(Role { name: "internal", description: "memory built into the console or cabinet itself", common: true, systems: no_names() });
    r.push(Role { name: "neogeo-card", description: "the Neo Geo memory card socket", common: false, systems: one_name("neogeo") });
    r.push(Role { name: "primary", description: "the one place a system keeps a save", common: true, systems: no_names() });
    assert(role_views(r@) =~= role_table());
    r
}

/// A numbered-socket prefix, registered once and covering every number.
#[derive(Debug, Clone, PartialEq, Eq)]
pub struct RolePrefix {
    /// The prefix, including its trailing `-`.
    pub prefix: &'static str,
    /// What kind of socket it numbers.
    pub description: &'static str,
    /// Systems the registry lists it under.
    pub systems: Vec<&'static str>,
}

/// What a prefix entry holds, as values.
pub struct RolePrefixView {
    pub prefix: Seq<char>,
    pub description: Seq<char>,
    pub systems: Seq<Seq<char>>,
}

impl View for RolePrefix {
    type V = RolePrefixView;

    open spec fn view(&self) -> RolePrefixView {
        RolePrefixView { prefix: self.prefix@, description: self.description@, systems: names_view(self.systems@) }
    }
}

/// The views of a run of prefixes.
pub open spec fn prefix_views(s: Seq<RolePrefix>) -> Seq<RolePrefixView> {
    Seq::new(s.len(), |i: int| s[i]@)
}

/// Every numbered-socket prefix.
pub open spec fn prefix_table() -> Seq<RolePrefixView> {
    seq![
        RolePrefixView {
            prefix: "memcard-"@,
            description: "a numbered memory card slot"@,
            systems: seq!["psx"@, "ps2"@, "gc"@],
        },
    ]
}

/// Every numbered-socket prefix.
pub fn role_prefixes() -> (r: Vec<RolePrefix>)
    ensures
        prefix_views(r@) == prefix_table(),
{
    let mut r: Vec<RolePrefix> = Vec::new();
    r.push(
        RolePrefix {
            prefix: "memcard-",
            description: "a numbered memory card slot",
            systems: three_names("psx", "ps2", "gc"),
        },
    );
    assert(prefix_views(r@) =~= prefix_table());
    r
}

/// What a role resolves to.
///
/// A consumer meeting `Unknown` **must not** guess which socket is meant. Round-trip it and show
/// it, but never match on it: restoring a controller pak's save into a cartridge slot is worse
/// than declining to restore it.
#[derive(Debug, Clone, PartialEq, Eq)]
pub enum RoleMatch {
    /// A role listed in the registry, compared whole.
    Registered(Role),
    /// The nth socket of a registered kind, as `memcard-8` is the eighth `memcard-`.
    Numbered(RolePrefix, u32),
    /// Not a role this registry lists.
    Unknown,
}

/// What a role resolves to, as values.
pub enum RoleMatchView {
    Registered(RoleView),
    Numbered(RolePrefixView, u32),
    Unknown,
}

impl View for RoleMatch {
    type V = RoleMatchView;

    open spec fn view(&self) -> RoleMatchView {
        match self {
            RoleMatch::Registered(r) => RoleMatchView::Registered(r@),
            RoleMatch::Numbered(p, n) => RoleMatchView::Numbered(p@, *n),
            RoleMatch::Unknown => RoleMatchView::Unknown,
        }
    }
}

/// Where the last `-` of a name's first `k` characters is, or -1.
pub open spec fn last_dash(s: Seq<char>, k: int) -> int
    decreases k,
{
    if k <= 0 {
        -1
    } else if s[k - 1] == '-' {
        k - 1
    } else {
        last_dash(s, k - 1)
    }
}

/// Whether a character is a decimal digit.
pub open spec fn is_digit(c: char) -> bool {
    '0' <= c <= '9'
}

/// The number a run of decimal digits spells.
pub open spec fn decimal(d: Seq<char>) -> int
    decreases d.len(),
{
    if d.len() == 0 {
        0
    } else {
        decimal(d.drop_last()) * 10 + (d.last() as int - 48)
    }
}

/// The prefix and number a numbered role spells: everything through its last `-`, and after it a
/// decimal number with no leading zero that fits 32 bits.
pub open spec fn numbered_role(name: Seq<char>) -> Option<(Seq<char>, u32)> {
    let k = last_dash(name, name.len() as int);
    let digits = name.skip(k + 1);
    if k < 0 || digits.len() == 0 || !(forall|i: int| 0 <= i < digits.len() ==> is_digit(#[trigger] digits[i]))
        || (digits.len() > 1 && digits[0] == '0') || decimal(digits) > u32::MAX {
        None
    } else {
        Some((name.take(k + 1), decimal(digits) as u32))
    }
}

/// What a role resolves to: a registered role compared whole, else the numbered socket of a
/// registered prefix, else nothing the registry lists.
pub open spec fn resolve_role(name: Seq<char>) -> RoleMatchView {
    let whole = first_where(role_table(), |r: RoleView| r.name == name);
    if whole is Some {
        RoleMatchView::Registered(whole->0)
    } else {
        match numbered_role(name) {
            Some((prefix, number)) => match first_where(prefix_table(), |p: RolePrefixView| p.prefix == prefix) {
                Some(entry) => RoleMatchView::Numbered(entry, number),
                None => RoleMatchView::Unknown,
            },
            None => RoleMatchView::Unknown,
        }
    }
}

/// Digits only ever add to a number: the number a run of digits spells is at least what any of
/// its beginnings spells.
proof fn lemma_decimal_grows(d: Seq<char>, i: int)
    requires
        0 <= i <= d.len(),
        forall|j: int| 0 <= j < d.len() ==> is_digit(#[trigger] d[j]),
    ensures
        decimal(d.take(i)) <= decimal(d),
        decimal(d.take(i)) >= 0,
    decreases d.len() - i,
{
    if i < d.len() {
        lemma_decimal_grows(d, i + 1);
        assert(d.take(i + 1).drop_last() =~= d.take(i));
        assert(decimal(d.take(i + 1)) == decimal(d.take(i)) * 10 + (d[i] as int - 48));
    } else {
        assert(d.take(i) =~= d);
        lemma_decimal_nonnegative(d);
    }
}

/// A run of digits spells a number that is not negative.
proof fn lemma_decimal_nonnegative(d: Seq<char>)
    requires
        forall|j: int| 0 <= j < d.len() ==> is_digit(#[trigger] d[j]),
    ensures
        decimal(d) >= 0,
    decreases d.len(),
{
    if d.len() > 0 {
        lemma_decimal_nonnegative(d.drop_last());
        assert(is_digit(d[d.len() - 1]));
    }
}

/// The number a run of decimal digits spells, if it fits 32 bits.
fn parse_decimal(s: &str, from: usize, to: usize) -> (r: Option<u32>)
    requires
        from <= to <= s@.len(),
        forall|j: int| from <= j < to ==> is_digit(#[trigger] s@[j]),
    ensures
        r matches Some(n) ==> n == decimal(s@.subrange(from as int, to as int)),
        r is None <==> decimal(s@.subrange(from as int, to as int)) > u32::MAX,
{
    let ghost d = s@.subrange(from as int, to as int);
    let mut value: u64 = 0;
    let mut i: usize = from;
    assert(d.take(0) =~= Seq::<char>::empty());
    while i < to
        invariant
            from <= i <= to,
            to <= s@.len(),
            d == s@.subrange(from as int, to as int),
            forall|j: int| 0 <= j < d.len() ==> is_digit(#[trigger] d[j]),
            value == decimal(d.take(i - from)),
            value <= u32::MAX,
        decreases to - i,
    {
        let c = s.get_char(i);
        assert(c == d[i - from]);
        let digit = (c as u32 - 48) as u64;
        proof {
            assert(d.take(i - from + 1).drop_last() =~= d.take(i - from));
        }
        value = value * 10 + digit;
        if value > 0xFFFF_FFFF {
            proof {
                lemma_decimal_grows(d, i - from + 1);
            }
            return None;
        }
        i = i + 1;
    }
    assert(d.take(to - from) =~= d);
    Some(value as u32)
}

/// Resolves a role, handling both a whole name and a numbered socket.
///
/// The number is decimal with no leading zero, so `memcard-01` is not socket 1 spelled oddly but
/// an ordinary slug that happens to end in digits, and an unrecognised prefix stays unrecognised
/// however it ends.
pub fn role(name: &str) -> (r: RoleMatch)
    ensures
        r@ == resolve_role(name@),
{
    let mut table = roles();
    let ghost p = |r: RoleView| r.name == name@;
    let mut i: usize = 0;
    assert(role_table().skip(0) =~= role_table());
    while i < table.len()
        invariant
            i <= table@.len(),
            role_views(table@) == role_table(),
            p == (|r: RoleView| r.name == name@),
            first_where(role_table(), p) == first_where(role_table().skip(i as int), p),
        decreases table@.len() - i,
    {
        proof {
            lemma_first_where_step(role_table(), p, i as int);
        }
        if str_eq(table[i].name, name) {
            return RoleMatch::Registered(table.remove(i));
        }
        i = i + 1;
    }
    assert(role_table().skip(4) =~= Seq::<RoleView>::empty());
    // Find the last `-`.
    let n = name.unicode_len();
    let mut k: usize = n;
    loop
        invariant
            k <= n,
            n == name@.len(),
            last_dash(name@, n as int) == last_dash(name@, k as int),
        ensures
            k <= n,
            last_dash(name@, n as int) == (if k == 0 { -1 } else { k - 1 }),
        decreases k,
    {
        if k == 0 {
            break;
        }
        if name.get_char(k - 1) == '-' {
            break;
        }
        k = k - 1;
    }
    if k == 0 {
        return RoleMatch::Unknown;
    }
    let digits_from = k;
    if digits_from == n {
        return RoleMatch::Unknown;
    }
    let ghost digits = name@.skip(digits_from as int);
    let ghost whole = first_where(role_table(), p);
    assert(whole is None);
    let mut j: usize = digits_from;
    while j < n
        invariant
            digits_from <= j <= n,
            n == name@.len(),
            digits == name@.skip(digits_from as int),
            whole is None,
            whole == first_where(role_table(), p),
            p == (|r: RoleView| r.name == name@),
            last_dash(name@, n as int) == digits_from - 1,
            forall|x: int| digits_from <= x < j ==> is_digit(#[trigger] name@[x]),
        decreases n - j,
    {
        let c = name.get_char(j);
        if !('0' <= c && c <= '9') {
            proof {
                assert(!is_digit(digits[j - digits_from]));
            }
            return RoleMatch::Unknown;
        }
        j = j + 1;
    }
    proof {
        assert forall|x: int| 0 <= x < digits.len() implies is_digit(#[trigger] digits[x]) by {
            assert(digits[x] == name@[digits_from + x]);
        }
    }
    if n - digits_from > 1 && name.get_char(digits_from) == '0' {
        return RoleMatch::Unknown;
    }
    let number = match parse_decimal(name, digits_from, n) {
        Some(v) => v,
        None => {
            assert(name@.subrange(digits_from as int, n as int) =~= digits);
            return RoleMatch::Unknown;
        },
    };
    assert(name@.subrange(digits_from as int, n as int) =~= digits);
    let prefix = name.substring_char(0, digits_from);
    assert(prefix@ == name@.take(digits_from as int));
    assert(numbered_role(name@) == Some((prefix@, number)));
    let mut prefixes = role_prefixes();
    let ghost q = |e: RolePrefixView| e.prefix == prefix@;
    let mut i: usize = 0;
    assert(prefix_table().skip(0) =~= prefix_table());
    while i < prefixes.len()
        invariant
            i <= prefixes@.len(),
            prefix_views(prefixes@) == prefix_table(),
            q == (|e: RolePrefixView| e.prefix == prefix@),
            first_where(prefix_table(), q) == first_where(prefix_table().skip(i as int), q),
            whole is None,
            whole == first_where(role_table(), p),
            p == (|r: RoleView| r.name == name@),
            numbered_role(name@) == Some((prefix@, number)),
        decreases prefixes@.len() - i,
    {
        proof {
            lemma_first_where_step(prefix_table(), q, i as int);
        }
        if str_eq(prefixes[i].prefix, prefix) {
            return RoleMatch::Numbered(prefixes.remove(i), number);
        }
        i = i + 1;
    }
    assert(prefix_table().skip(1) =~= Seq::<RolePrefixView>::empty());
    RoleMatch::Unknown
}

// ---------------------------------------------------------------------------------------------
// Card formats, device kinds, bindings and vendors.

/// A memory card layout.
#[derive(Debug, Clone, Copy, PartialEq, Eq)]
pub struct CardFormat {
    /// The format, as a card's `format` field carries it.
    pub name: &'static str,
    /// How many bytes this format's `dirent` runs to.
    ///
    /// `None` for `saturn-bup`, which keeps its entry inside the save's first block and so omits
    /// the key entirely.
    pub dirent_len: Option<usize>,
    /// What is particular about this format.
    pub notes: &'static str,
}

/// What a card format entry holds, as values.
pub struct CardFormatView {
    pub name: Seq<char>,
    pub dirent_len: Option<usize>,
    pub notes: Seq<char>,
}

impl View for CardFormat {
    type V = CardFormatView;

    open spec fn view(&self) -> CardFormatView {
        CardFormatView { name: self.name@, dirent_len: self.dirent_len, notes: self.notes@ }
    }
}

/// The views of a run of card formats.
pub open spec fn card_format_views(s: Seq<CardFormat>) -> Seq<CardFormatView> {
    Seq::new(s.len(), |i: int| s[i]@)
}

/// A card format entry as values.
pub open spec fn card_entry(name: &'static str, dirent_len: Option<usize>, notes: &'static str) -> CardFormatView {
    CardFormatView { name: name@, dirent_len, notes: notes@ }
}

/// Every card format there are rebuild rules for.
pub open spec fn card_format_table() -> Seq<CardFormatView> {
    seq![
        card_entry("ps1-mc", Some(128), "fifteen slots of 8 KiB behind a 128-byte directory frame each"),
        card_entry("ps2-mc", Some(512), "a FAT filesystem of clusters, with or without ECC spare bytes"),
        card_entry("n64-cpak", Some(32), "256-byte pages chained through an index table"),
        card_entry("gc-mc", Some(64), "8 KiB blocks, big-endian, with mirrored directory and table"),
        card_entry("vmu", Some(32), "512-byte blocks with the directory running downward from 253"),
        card_entry("neogeo-mc", Some(4), "64-byte blocks sized from the card's own size word"),
        card_entry("saturn-bup", None, "the entry lives inside the save's first block"),
    ]
}

/// Every card format there are rebuild rules for.
pub fn card_formats() -> (r: Vec<CardFormat>)
    ensures
        card_format_views(r@) == card_format_table(),
{
    let mut r: Vec<CardFormat> = Vec::new();
    r.push(CardFormat { name: "ps1-mc", dirent_len: Some(128), notes: "fifteen slots of 8 KiB behind a 128-byte directory frame each" });
    r.push(CardFormat { name: "ps2-mc", dirent_len: Some(512), notes: "a FAT filesystem of clusters, with or without ECC spare bytes" });
    r.push(CardFormat { name: "n64-cpak", dirent_len: Some(32), notes: "256-byte pages chained through an index table" });
    r.push(CardFormat { name: "gc-mc", dirent_len: Some(64), notes: "8 KiB blocks, big-endian, with mirrored directory and table" });
    r.push(CardFormat { name: "vmu", dirent_len: Some(32), notes: "512-byte blocks with the directory running downward from 253" });
    r.push(CardFormat { name: "neogeo-mc", dirent_len: Some(4), notes: "64-byte blocks sized from the card's own size word" });
    r.push(CardFormat { name: "saturn-bup", dirent_len: None, notes: "the entry lives inside the save's first block" });
    assert(card_format_views(r@) =~= card_format_table());
    r
}

/// The view of an optional card format.
pub open spec fn opt_card_format(o: Option<CardFormat>) -> Option<CardFormatView> {
    match o {
        Some(c) => Some(c@),
        None => None,
    }
}

/// The card format a slug names.
pub fn card_format(name: &str) -> (r: Option<CardFormat>)
    ensures
        opt_card_format(r) == first_where(card_format_table(), |c: CardFormatView| c.name == name@),
{
    let table = card_formats();
    let ghost p = |c: CardFormatView| c.name == name@;
    let mut i: usize = 0;
    assert(card_format_table().skip(0) =~= card_format_table());
    while i < table.len()
        invariant
            i <= table@.len(),
            card_format_views(table@) == card_format_table(),
            p == (|c: CardFormatView| c.name == name@),
            first_where(card_format_table(), p) == first_where(card_format_table().skip(i as int), p),
        decreases table@.len() - i,
    {
        proof {
            lemma_first_where_step(card_format_table(), p, i as int);
        }
        if str_eq(table[i].name, name) {
            return Some(table[i]);
        }
        i = i + 1;
    }
    assert(card_format_table().skip(7) =~= Seq::<CardFormatView>::empty());
    None
}

/// A kind of producer, as a `source.device_kind` names it.
#[derive(Debug, Clone, Copy, PartialEq, Eq)]
pub struct DeviceKind {
    /// The value.
    pub name: &'static str,
    /// What it means.
    pub meaning: &'static str,
}

/// Every value the `device_kind` vocabulary holds, as names.
pub open spec fn device_kind_names() -> Seq<Seq<char>> {
    seq!["cartridge-reader"@, "emulator"@, "flashcart"@]
}

/// The names of a run of device kinds.
pub open spec fn device_kind_views(s: Seq<DeviceKind>) -> Seq<Seq<char>> {
    Seq::new(s.len(), |i: int| s[i].name@)
}

/// Every value the `device_kind` vocabulary holds.
pub fn device_kinds() -> (r: Vec<DeviceKind>)
    ensures
        device_kind_views(r@) == device_kind_names(),
{
    let mut r: Vec<DeviceKind> = Vec::new();
    r.push(DeviceKind { name: "cartridge-reader", meaning: "hardware that reads a cartridge's save memory directly" });
    r.push(DeviceKind { name: "emulator", meaning: "software that runs the game" });
    r.push(DeviceKind { name: "flashcart", meaning: "a cartridge that runs dumped games on the original console" });
    assert(device_kind_views(r@) =~= device_kind_names());
    r
}

/// Whether a value is a `device_kind` the vocabulary defines.
pub fn is_device_kind(name: &str) -> (r: bool)
    ensures
        r == listed(device_kind_names(), name@),
{
    let table = device_kinds();
    let mut i: usize = 0;
    while i < table.len()
        invariant
            i <= table@.len(),
            device_kind_views(table@) == device_kind_names(),
            forall|k: int| 0 <= k < i ==> device_kind_names()[k] != name@,
        decreases table@.len() - i,
    {
        if str_eq(table[i].name, name) {
            assert(device_kind_names()[i as int] == name@);
            return true;
        }
        i = i + 1;
    }
    false
}

/// What a bound payload is stuck to.
#[derive(Debug, Clone, Copy, PartialEq, Eq)]
pub struct Binding {
    /// The value, as a part's `binding` carries it.
    pub name: &'static str,
    /// What the payload is bound to.
    pub bound_to: &'static str,
}

/// Every value the `binding` vocabulary holds, as names: none is listed here.
pub open spec fn binding_names() -> Seq<Seq<char>> {
    Seq::empty()
}

/// Every value the `binding` vocabulary holds.
pub fn bindings() -> (r: Vec<Binding>)
    ensures
        r@.len() == binding_names().len(),
        forall|i: int| 0 <= i < r@.len() ==> r@[i].name@ == binding_names()[i],
{
    Vec::new()
}

/// Whether a value is a `binding` the vocabulary defines.
pub fn is_binding(name: &str) -> (r: bool)
    ensures
        r == listed(binding_names(), name@),
{
    let table = bindings();
    let mut i: usize = 0;
    while i < table.len()
        invariant
            i <= table@.len(),
            table@.len() == binding_names().len(),
            forall|k: int| 0 <= k < table@.len() ==> table@[k].name@ == binding_names()[k],
            forall|k: int| 0 <= k < i ==> binding_names()[k] != name@,
        decreases table@.len() - i,
    {
        if str_eq(table[i].name, name) {
            return true;
        }
        i = i + 1;
    }
    false
}

/// An assigned name in the `x` tree.
#[derive(Debug, Clone, Copy, PartialEq, Eq)]
pub struct Vendor {
    /// The two-label name, such as `x.1sav`.
    pub name: &'static str,
    /// Whether these specifications reserved it rather than assigning it to a vendor.
    pub reserved: bool,
    /// The vendor holding it, when one does.
    pub holder: Option<&'static str>,
    /// What it covers.
    pub notes: &'static str,
}

/// What a vendor entry holds, as values.
pub struct VendorView {
    pub name: Seq<char>,
    pub reserved: bool,
    pub holder: Option<Seq<char>>,
    pub notes: Seq<char>,
}

impl View for Vendor {
    type V = VendorView;

    open spec fn view(&self) -> VendorView {
        VendorView {
            name: self.name@,
            reserved: self.reserved,
            holder: match self.holder {
                Some(h) => Some(h@),
                None => None,
            },
            notes: self.notes@,
        }
    }
}

/// The views of a run of vendors.
pub open spec fn vendor_views(s: Seq<Vendor>) -> Seq<VendorView> {
    Seq::new(s.len(), |i: int| s[i]@)
}

/// Every assigned name in the `x` tree.
pub open spec fn vendor_table() -> Seq<VendorView> {
    seq![
        VendorView {
            name: "x.1sav"@,
            reserved: true,
            holder: None,
            notes: "the extensions these specifications define"@,
        },
    ]
}

/// Every assigned name in the `x` tree.
pub fn vendors() -> (r: Vec<Vendor>)
    ensures
        vendor_views(r@) == vendor_table(),
{
    let mut r: Vec<Vendor> = Vec::new();
    r.push(Vendor { name: "x.1sav", reserved: true, holder: None, notes: "the extensions these specifications define" });
    assert(vendor_views(r@) =~= vendor_table());
    r
}

/// Where the first `.` at or after `i` is, or the end.
pub open spec fn dot_from(s: Seq<char>, i: int) -> int
    decreases s.len() - i,
{
    if i < 0 || i >= s.len() || s[i] == '.' {
        i
    } else {
        dot_from(s, i + 1)
    }
}

/// The first two labels of a name, with the dot between them, when it has at least two.
pub open spec fn two_labels(name: Seq<char>) -> Option<Seq<char>> {
    let first = dot_from(name, 0);
    if first >= name.len() {
        None
    } else {
        Some(name.take(dot_from(name, first + 1)))
    }
}

/// Where the first `.` at or after `from` is, or the end.
fn find_dot(s: &str, n: usize, from: usize) -> (r: usize)
    requires
        n == s@.len(),
        from <= n,
    ensures
        r == dot_from(s@, from as int),
        from <= r <= n,
{
    let mut i: usize = from;
    while i < n
        invariant
            from <= i <= n,
            n == s@.len(),
            dot_from(s@, i as int) == dot_from(s@, from as int),
        decreases n - i,
    {
        if s.get_char(i) == '.' {
            return i;
        }
        i = i + 1;
    }
    i
}

/// The view of an optional vendor.
pub open spec fn opt_vendor(o: Option<Vendor>) -> Option<VendorView> {
    match o {
        Some(v) => Some(v@),
        None => None,
    }
}

/// The vendor assignment a name falls under: the one named by its first two labels.
pub open spec fn vendor_of(name: Seq<char>) -> Option<VendorView> {
    match two_labels(name) {
        Some(two) => first_where(vendor_table(), |v: VendorView| v.name == two),
        None => None,
    }
}

/// The `x`-tree assignment a name falls under, if any.
///
/// A name in the tree is exactly two labels, and below its own name a vendor is on its own, so
/// `x.fceumm.anything` resolves to the `x.fceumm` assignment.
pub fn vendor(name: &str) -> (r: Option<Vendor>)
    ensures
        opt_vendor(r) == vendor_of(name@),
{
    let n = name.unicode_len();
    let first = find_dot(name, n, 0);
    if first == n {
        return None;
    }
    let end = find_dot(name, n, first + 1);
    let two = name.substring_char(0, end);
    assert(two@ == name@.take(end as int));
    assert(two_labels(name@) == Some(two@));
    let table = vendors();
    let ghost p = |v: VendorView| v.name == two@;
    let mut i: usize = 0;
    assert(vendor_table().skip(0) =~= vendor_table());
    while i < table.len()
        invariant
            i <= table@.len(),
            vendor_views(table@) == vendor_table(),
            two_labels(name@) == Some(two@),
            p == (|v: VendorView| v.name == two@),
            first_where(vendor_table(), p) == first_where(vendor_table().skip(i as int), p),
        decreases table@.len() - i,
    {
        proof {
            lemma_first_where_step(vendor_table(), p, i as int);
        }
        if str_eq(table[i].name, two) {
            return Some(table[i]);
        }
        i = i + 1;
    }
    assert(vendor_table().skip(1) =~= Seq::<VendorView>::empty());
    None
}

} // verus!
