use onesaves::profile::{profile, profiles, settle_system};
use onesaves::registry::{is_device_kind, system};

#[test]
fn a_listed_core_resolves_to_its_slug_and_not_a_reverse_dns_name() {
    let mgba = profile("mgba").expect("known");
    assert_eq!(mgba.app, "mgba");
    assert_eq!(profile("MGBA").map(|p| p.key), Some("mgba"));
}

#[test]
fn any_listed_core_works_without_being_named_here() {
    let fceumm = profile("fceumm").expect("resolves through the registry");
    assert_eq!(fceumm.app, "fceumm");
    assert_eq!(fceumm.only_system(), Some("nes"));
    assert_eq!(profile("Genesis_MiSTer").map(|p| p.app), Some("megadrive-mister"));
}

#[test]
fn standalone_mednafen_is_not_one_of_the_beetle_forks_it_was_forked_into() {
    assert_eq!(profile("mednafen").map(|p| p.app), Some("x.mednafen"));
    assert_eq!(profile("Mednafen Saturn").map(|p| p.app), Some("beetle-saturn"));
    assert_eq!(profile("mednafen").and_then(|p| p.only_system()), None);
}

#[test]
fn an_unknown_producer_has_no_profile() {
    assert_eq!(profile("nosuchemulator"), None);
}

#[test]
fn every_profiles_kind_and_systems_are_listed() {
    for profile in profiles() {
        assert!(is_device_kind(profile.device_kind), "{}: {}", profile.key, profile.device_kind);
        for slug in &profile.systems {
            assert!(system(slug).is_some(), "{}: {slug}", profile.key);
        }
    }
}

#[test]
fn the_system_is_settled_from_what_is_known_first() {
    let mgba = profiles().into_iter().find(|p| p.systems.len() == 1);
    let many = profile("retroarch").expect("a profile");
    assert_eq!(settle_system(Some("gbc"), Some("gb"), mgba.as_ref()).as_deref(), Some("gbc"));
    assert_eq!(settle_system(None, Some("gb"), mgba.as_ref()).as_deref(), Some("gb"));
    if let Some(one) = &mgba {
        assert_eq!(settle_system(None, None, Some(one)).as_deref(), Some(one.systems[0]));
    }
    assert_eq!(settle_system(None, None, Some(&many)), None);
    assert_eq!(settle_system(None, None, None), None);
}
