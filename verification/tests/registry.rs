use onesaves::registry::{
    card_format, card_formats, core_by_any_name, core_by_slug, cores, cores_for_system, device_kinds,
    is_binding, is_device_kind, role, role_prefixes, roles, system, system_by_any_name, systems, vendor,
    vendors, ClockLayout, CoreKind, RoleMatch,
};

#[test]
fn the_tables_are_sorted_so_binary_search_is_sound() {
    assert!(systems().windows(2).all(|w| w[0].slug < w[1].slug), "systems must be sorted by slug");
    assert!(cores().windows(2).all(|w| w[0].slug < w[1].slug), "cores must be sorted by slug");
    assert!(roles().windows(2).all(|w| w[0].name < w[1].name), "roles must be sorted by name");
}

#[test]
fn a_slug_names_one_system_and_not_a_family() {
    assert_ne!(system("psx"), system("ps2"));
    assert_eq!(system_by_any_name("playstation").unwrap().slug, "psx");
}

#[test]
fn aliases_map_the_names_other_tools_use() {
    for (alias, slug) in [
        ("megadrive", "genesis"),
        ("md", "genesis"),
        ("ps1", "psx"),
        ("gameboy", "gb"),
        ("ngc", "gc"),
        ("2600", "atari-2600"),
    ] {
        assert_eq!(system_by_any_name(alias).map(|s| s.slug), Some(slug), "{alias}");
    }
}

#[test]
fn a_name_maps_whatever_its_case() {
    assert_eq!(system_by_any_name("MegaDrive").map(|s| s.slug), Some("genesis"));
    assert_eq!(system_by_any_name("PSX").map(|s| s.slug), Some("psx"));
    assert_eq!(system_by_any_name("nothing-like-it"), None);
    assert_eq!(system("PSX"), None, "a slug is compared whole");
}

#[test]
fn a_core_listed_here_has_exactly_one_spelling() {
    let mgba = core_by_slug("mgba").expect("mgba is listed");
    assert_eq!(mgba.kind, CoreKind::Libretro);
    assert!(mgba.systems.contains(&"gba"));
    assert_eq!(core_by_any_name("mGBA").map(|c| c.slug), Some("mgba"));
}

#[test]
fn a_renamed_core_still_resolves_through_its_old_name() {
    assert_eq!(core_by_any_name("Genesis_MiSTer").map(|c| c.slug), Some("megadrive-mister"));
    assert_eq!(core_by_any_name("Mednafen Saturn").map(|c| c.slug), Some("beetle-saturn"));
}

#[test]
fn every_core_runs_a_listed_system() {
    for core in cores() {
        for slug in core.systems {
            assert!(system(slug).is_some(), "{} runs unlisted system {slug}", core.slug);
        }
    }
}

#[test]
fn cores_for_a_system_keep_the_table_order() {
    let slugs: Vec<&str> = cores_for_system("gba").into_iter().map(|c| c.slug).collect();
    assert_eq!(slugs, vec!["mgba"]);
    let nes: Vec<&str> = cores_for_system("nes").into_iter().map(|c| c.slug).collect();
    assert_eq!(nes, vec!["fceumm"]);
    assert!(cores_for_system("nosuchsystem").is_empty());
}

#[test]
fn the_clock_layout_is_registry_data() {
    assert_eq!(core_by_slug("gambatte").unwrap().clock, Some(ClockLayout::Sidecar));
    assert_eq!(core_by_slug("gameboy-mister").unwrap().clock, Some(ClockLayout::Packed { reserved: 512 }));
    assert_eq!(core_by_slug("budude2-gbc").unwrap().clock, Some(ClockLayout::Packed { reserved: 16 }));
    assert_eq!(core_by_slug("psx-mister").unwrap().clock, None);
}

#[test]
fn numbered_sockets_resolve_past_what_is_listed() {
    for n in [1u32, 2, 8, 64] {
        let RoleMatch::Numbered(prefix, got) = role(&format!("memcard-{n}")) else {
            panic!("memcard-{n} should resolve as a numbered socket");
        };
        assert_eq!((prefix.prefix, got), ("memcard-", n));
    }
}

#[test]
fn an_unrecognised_prefix_stays_unrecognised_however_it_ends() {
    assert_eq!(role("atari-2600"), RoleMatch::Unknown);
    assert_eq!(role("nosuchthing-1"), RoleMatch::Unknown);
    assert_eq!(role("memcard-01"), RoleMatch::Unknown);
}

#[test]
fn a_whole_role_and_the_edges_of_a_number() {
    assert!(matches!(role("cartridge"), RoleMatch::Registered(r) if r.name == "cartridge"));
    assert_eq!(role("memcard-"), RoleMatch::Unknown);
    assert_eq!(role("memcard-4294967296"), RoleMatch::Unknown, "past 32 bits is not a socket");
    assert!(matches!(role("memcard-4294967295"), RoleMatch::Numbered(_, 4_294_967_295)));
    assert!(matches!(role("memcard-0"), RoleMatch::Numbered(_, 0)));
    assert_eq!(role("memcard-1x"), RoleMatch::Unknown);
    assert_eq!(role_prefixes().len(), 1);
}

#[test]
fn dirent_lengths_are_what_the_memory_cards_spec_fixes() {
    for (name, len) in [
        ("ps1-mc", Some(128)),
        ("ps2-mc", Some(512)),
        ("n64-cpak", Some(32)),
        ("gc-mc", Some(64)),
        ("vmu", Some(32)),
        ("neogeo-mc", Some(4)),
        ("saturn-bup", None),
    ] {
        assert_eq!(card_format(name).unwrap().dirent_len, len, "{name}");
    }
    assert_eq!(card_formats().len(), 7);
    assert_eq!(card_format("nope"), None);
}

#[test]
fn the_x_tree_resolves_below_an_assignment() {
    assert_eq!(vendor("x.1sav").map(|v| v.name), Some("x.1sav"));
    assert_eq!(vendor("x.1sav.rtc").map(|v| v.name), Some("x.1sav"));
    assert!(vendor("x.1sav").unwrap().reserved);
    assert_eq!(vendor("io.mgba"), None);
    assert_eq!(vendor("x"), None);
    assert_eq!(vendors().len(), 1);
}

#[test]
fn the_vocabularies_answer_membership() {
    assert!(is_device_kind("emulator"));
    assert!(is_device_kind("flashcart"));
    assert!(!is_device_kind("Emulator"));
    assert_eq!(device_kinds().len(), 3);
    assert!(!is_binding("anything"));
}
