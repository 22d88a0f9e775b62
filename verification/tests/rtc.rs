use onesaves::raw::wrap_payload;
use onesaves::rtc::{
    build_gambatte_sidecar, build_mbc3, build_packed, build_s3511a, parse_gambatte_sidecar, parse_mbc3,
    parse_packed, parse_s3511a, split, Clock, Mbc3Clock, PACKED_LEN_MISTER, PACKED_LEN_POCKET,
};
use onesaves::rtc::{clock_form, footer_of_form, ClockForm};

const MBC3_LEN_32: usize = 44;
const MBC3_LEN_64: usize = 48;
const GB_SRAM_SIZES: &[usize] = &[2048, 8192, 32768, 65536, 131_072];

/// Builds the footer an emulator writes for a Game Boy cartridge with a clock.
fn mbc3_footer(seconds: u32, minutes: u32, hours: u32, days: u32, written_at: i64) -> Vec<u8> {
    let mut footer = Vec::with_capacity(MBC3_LEN_64);
    for value in [seconds, minutes, hours, days & 0xFF, (days >> 8) & 1] {
        footer.extend_from_slice(&value.to_le_bytes());
    }
    for value in [seconds, minutes, hours, days & 0xFF, (days >> 8) & 1] {
        footer.extend_from_slice(&value.to_le_bytes());
    }
    footer.extend_from_slice(&written_at.to_le_bytes());
    footer
}

fn crystal_save(written_at: i64) -> Vec<u8> {
    let mut save = vec![0x11u8; 32768];
    save.extend_from_slice(&mbc3_footer(30, 45, 13, 300, written_at));
    save
}

const SAMEBOY_FOOTER: [u8; 48] = [
    0x0d, 0, 0, 0, 0x02, 0, 0, 0, 0, 0, 0, 0, 0, 0, 0, 0, 0, 0, 0, 0, // live
    0x0d, 0, 0, 0, 0x02, 0, 0, 0, 0, 0, 0, 0, 0, 0, 0, 0, 0, 0, 0, 0, // latched
    0x62, 0xba, 0x7c, 0x6a, 0, 0, 0, 0, // written_at, 64-bit
];

#[test]
fn reads_a_real_sameboy_clock() {
    let clock = parse_mbc3(&SAMEBOY_FOOTER).expect("an MBC3 clock");
    assert_eq!((clock.seconds, clock.minutes, clock.hours), (13, 2, 0));
    assert_eq!(clock.days(), 0);
    assert!(!clock.halted() && !clock.overflowed());
    assert_eq!(clock.timestamp_width, 8);
    assert_eq!(clock.written_at, 1_786_559_074);
    assert_eq!(clock.latched, clock.live());
}

#[test]
fn a_real_sameboy_save_splits_and_rebuilds() {
    let mut save: Vec<u8> = (0..32_768u32).map(|i| (i % 251) as u8).collect();
    save.extend_from_slice(&SAMEBOY_FOOTER);

    let split = split(&save, Some("gb")).expect("has a clock");
    assert_eq!(split.sram.len(), 32_768);

    let Clock::Mbc3(clock) = split.clock else { panic!("wrong chip") };
    let rebuilt = build_mbc3(&clock.live(), &clock.latched, clock.written_at, clock.timestamp_width);
    assert_eq!(rebuilt, SAMEBOY_FOOTER, "regenerated byte for byte");
}

#[test]
fn a_save_with_no_footer_is_left_alone() {
    for size in GB_SRAM_SIZES {
        assert_eq!(split(&vec![0u8; *size], Some("gb")), None, "{size} bytes");
    }
}

#[test]
fn splits_a_pokemon_crystal_save() {
    let save = crystal_save(1_700_000_000);
    assert_eq!(save.len(), 32_816);

    let split = split(&save, Some("gb")).expect("has a footer");
    assert_eq!(split.sram.len(), 32_768);
    assert_eq!(split.footer.len(), MBC3_LEN_64);
    let elapsed = 300 * 86_400 + 13 * 3_600 + 45 * 60 + 30;
    assert_eq!(split.reading.unwrap().instant, 1_700_000_000 + elapsed);
}

#[test]
fn reads_the_registers_and_the_day_counter() {
    let clock = parse_mbc3(&mbc3_footer(30, 45, 13, 300, 1_700_000_000)).expect("parses");
    assert_eq!((clock.seconds, clock.minutes, clock.hours), (30, 45, 13));
    assert_eq!(clock.days(), 300);
    assert!(!clock.halted());
    assert!(!clock.overflowed());
}

#[test]
fn accepts_the_shorter_footer_some_emulators_write() {
    let mut footer = mbc3_footer(1, 2, 3, 4, 0);
    footer.truncate(MBC3_LEN_32);
    footer[40..44].copy_from_slice(&1_600_000_000u32.to_le_bytes());

    let clock = parse_mbc3(&footer).expect("44 bytes is the 32-bit timestamp form");
    assert_eq!(clock.written_at, 1_600_000_000);
}

#[test]
fn a_tail_of_the_right_length_that_is_not_a_clock_is_left_alone() {
    let mut save = vec![0u8; 32_768];
    let mut footer = mbc3_footer(30, 97, 13, 300, 1_700_000_000);
    footer[4..8].copy_from_slice(&97u32.to_le_bytes());
    save.extend_from_slice(&footer);

    assert_eq!(split(&save, Some("gb")), None);
}

#[test]
fn a_tail_running_into_the_kilobytes_is_not_a_footer() {
    let mut save = vec![0u8; 32_768];
    save.extend_from_slice(&vec![0u8; 4096]);
    assert_eq!(split(&save, Some("gb")), None);
}

#[test]
fn a_system_with_no_footer_convention_is_never_split() {
    let mut save = vec![0u8; 32_768];
    save.extend_from_slice(&mbc3_footer(1, 2, 3, 4, 5));
    assert_eq!(split(&save, Some("snes")), None);
    assert_eq!(split(&save, Some("psx")), None);
}

#[test]
fn the_footer_is_regenerated_byte_for_byte() {
    for width in [MBC3_LEN_32, MBC3_LEN_64] {
        let mut original = mbc3_footer(30, 45, 13, 300, 1_600_000_000);
        if width == MBC3_LEN_32 {
            original.truncate(MBC3_LEN_32);
            original[40..44].copy_from_slice(&1_600_000_000u32.to_le_bytes());
        }

        let clock = parse_mbc3(&original).expect("parses");
        let rebuilt = build_mbc3(&clock.live(), &clock.latched, clock.written_at, clock.timestamp_width);
        assert_eq!(rebuilt, original, "{width}-byte footer should rebuild exactly");
    }
}

#[test]
fn the_timestamp_width_is_what_keeps_it_exact() {
    let clock = Mbc3Clock {
        seconds: 1,
        minutes: 2,
        hours: 3,
        days_low: 4,
        days_high: 0,
        latched: [1, 2, 3, 4, 0],
        written_at: 1_600_000_000,
        timestamp_width: 4,
    };
    assert_eq!(build_mbc3(&clock.live(), &clock.latched, clock.written_at, 4).len(), MBC3_LEN_32);
    assert_eq!(build_mbc3(&clock.live(), &clock.latched, clock.written_at, 8).len(), MBC3_LEN_64);
}

const RUBY_FOOTER: [u8; 16] =
    [0x26, 0x08, 0x12, 0x03, 0x10, 0x39, 0x43, 0x40, 0xdf, 0xaf, 0x7c, 0x6a, 0, 0, 0, 0];

#[test]
fn reads_a_real_gba_clock() {
    let clock = parse_s3511a(&RUBY_FOOTER).expect("a Seiko S-3511A");
    assert_eq!(clock.components, [0x26, 0x08, 0x12, 0x03, 0x10, 0x39, 0x43]);
    assert_eq!(clock.components[3], 3);
    assert_eq!((clock.components[4], clock.components[5]), (0x10, 0x39));
    assert_eq!(clock.control, 0x40);
    assert!(clock.hour24());
    assert_eq!(clock.latched_at, 1_786_556_383);
}

#[test]
fn a_real_gba_save_splits_and_rebuilds() {
    let mut save: Vec<u8> = (0..131_072u32).map(|i| (i % 251) as u8).collect();
    save.extend_from_slice(&RUBY_FOOTER);

    let split = split(&save, Some("gba")).expect("has a clock");
    assert_eq!(split.sram.len(), 131_072);
    assert_eq!(split.reading.unwrap().instant, 1_786_556_383);

    let Clock::S3511a(clock) = split.clock else { panic!("wrong chip") };
    assert_eq!(build_s3511a(&clock.components, clock.control, clock.latched_at), RUBY_FOOTER);
}

#[test]
fn a_gba_tail_that_is_not_bcd_is_not_a_clock() {
    let mut bad = RUBY_FOOTER;
    bad[1] = 0x19;
    assert_eq!(parse_s3511a(&bad), None);

    let mut nibble = RUBY_FOOTER;
    nibble[5] = 0x3f;
    assert_eq!(parse_s3511a(&nibble), None);
}

const GAMBATTE_SIDECAR: [u8; 4] = [0x6a, 0x7c, 0xb7, 0x78];
const GAMBATTE_WRITTEN_AT: i64 = 1_786_558_622;

#[test]
fn reads_a_real_gambatte_sidecar() {
    let clock = parse_gambatte_sidecar(&GAMBATTE_SIDECAR, GAMBATTE_WRITTEN_AT).expect("a clock");
    assert_eq!((clock.hours, clock.minutes, clock.seconds), (0, 4, 54));
    assert_eq!(clock.days(), 0);
    assert_eq!(clock.written_at, GAMBATTE_WRITTEN_AT);
    assert_eq!(clock.latched, clock.live(), "nothing was mid-read");
}

#[test]
fn the_sidecar_round_trips_whatever_instant_is_chosen() {
    for captured_at in [GAMBATTE_WRITTEN_AT, GAMBATTE_WRITTEN_AT + 3600, 1_800_000_000] {
        let clock = parse_gambatte_sidecar(&GAMBATTE_SIDECAR, captured_at).expect("a clock");
        assert_eq!(
            build_gambatte_sidecar(&clock),
            GAMBATTE_SIDECAR,
            "origin should survive captured_at = {captured_at}"
        );
    }
}

#[test]
fn a_sidecar_from_the_future_is_refused() {
    assert_eq!(parse_gambatte_sidecar(&GAMBATTE_SIDECAR, 1_000_000_000), None);
    assert_eq!(parse_gambatte_sidecar(&[1, 2, 3], GAMBATTE_WRITTEN_AT), None);
}

#[test]
fn a_long_running_clock_keeps_its_day_counter_and_carry() {
    let base = 1_700_000_000i64;
    let captured = base + 600 * 86_400 + 3 * 3_600 + 4 * 60 + 5;
    let clock =
        parse_gambatte_sidecar(&u32::try_from(base).unwrap().to_be_bytes(), captured).expect("a clock");
    assert_eq!((clock.hours, clock.minutes, clock.seconds), (3, 4, 5));
    assert_eq!(clock.days(), 0x258 & 0x1FF, "600 days wraps to the low nine bits");
    assert!(clock.overflowed(), "and the carry flag says it did");
}

#[test]
fn a_sidecar_round_trips_past_the_nine_bits_of_days() {
    // 512 days to the second, then 600 days and change, then years: the counter wraps each time.
    assert_eq!(build_gambatte_sidecar(&parse_gambatte_sidecar(&[0, 0, 0, 0], 44_236_800).unwrap()), vec![0, 0, 0, 0]);
    let base = 1_700_000_000i64;
    let origin = u32::try_from(base).unwrap().to_be_bytes();
    for captured in [base + 600 * 86_400 + 3 * 3_600 + 4 * 60 + 5, base + 1_500 * 86_400 + 17, i64::MAX] {
        let clock = parse_gambatte_sidecar(&origin, captured).expect("a clock");
        assert_eq!(build_gambatte_sidecar(&clock), origin.to_vec(), "captured_at = {captured}");
        assert!(clock.overflowed());
    }
    // The days the counter dropped come off the write time, a whole 512 of them each.
    let clock = parse_gambatte_sidecar(&origin, base + 600 * 86_400).unwrap();
    assert_eq!(clock.written_at, base + 600 * 86_400 - 512 * 86_400);
}

const POCKET_FIRST: [u8; 16] =
    [0x75, 0x52, 0x7c, 0x6a, 0x47, 0x3c, 0x05, 0, 0, 0, 0xff, 0xff, 0xff, 0xff, 0xff, 0xff];
const POCKET_SECOND: [u8; 16] =
    [0xe6, 0x5c, 0x7c, 0x6a, 0x68, 0x48, 0x05, 0, 0, 0, 0xff, 0xff, 0xff, 0xff, 0xff, 0xff];

#[test]
fn reads_a_real_pocket_clock() {
    let first = parse_packed(&POCKET_FIRST).expect("an MBC3 clock");
    assert_eq!((first.hours, first.minutes, first.seconds), (19, 49, 7));
    assert_eq!(first.days(), 2);
    assert!(!first.halted() && !first.overflowed());
    assert_eq!(first.written_at, 1_786_532_469);

    let second = parse_packed(&POCKET_SECOND).expect("an MBC3 clock");
    assert_eq!((second.hours, second.minutes, second.seconds), (20, 33, 40));
}

#[test]
fn both_pocket_fields_advance_together() {
    let a = parse_packed(&POCKET_FIRST).expect("a clock");
    let b = parse_packed(&POCKET_SECOND).expect("a clock");
    let elapsed = |c: &Mbc3Clock| {
        i64::from(c.days()) * 86_400
            + i64::from(c.hours) * 3_600
            + i64::from(c.minutes) * 60
            + i64::from(c.seconds)
    };
    assert_eq!(b.written_at - a.written_at, 2673);
    assert_eq!(elapsed(&b) - elapsed(&a), 2673);
    assert_eq!(b.elapsed_seconds() - a.elapsed_seconds(), 2673);
}

#[test]
fn a_pocket_footer_rebuilds_byte_for_byte() {
    for original in [POCKET_FIRST, POCKET_SECOND] {
        let clock = parse_packed(&original).expect("a clock");
        assert_eq!(build_packed(&clock, PACKED_LEN_POCKET), original);
    }
}

#[test]
fn the_pocket_day_counter_is_wider_than_the_hardware_register() {
    let mut footer = POCKET_FIRST;
    let packed = 600u64 << 17 | 1 << 27;
    footer[4..10].copy_from_slice(&packed.to_le_bytes()[..6]);

    let clock = parse_packed(&footer).expect("a clock");
    assert_eq!(clock.days(), 0x258 & 0x1FF, "600 days wraps into the nine-bit register");
    assert!(clock.overflowed(), "and the carry flag survives");
    assert_ne!(build_packed(&clock, PACKED_LEN_POCKET), footer, "past 511 days the two forms differ");
}

fn mister_footer() -> Vec<u8> {
    let mut footer = vec![0x38, 0x57, 0x7c, 0x6a, 0x91, 0, 0, 0, 0, 0];
    footer.resize(PACKED_LEN_MISTER, 0xFF);
    footer
}

#[test]
fn reads_a_real_mister_clock() {
    let clock = parse_packed(&mister_footer()).expect("an MBC3 clock");
    assert_eq!((clock.hours, clock.minutes, clock.seconds), (0, 2, 17));
    assert_eq!(clock.days(), 0);
    assert_eq!(clock.written_at, 1_786_533_688);
    assert_eq!(build_packed(&clock, PACKED_LEN_MISTER), mister_footer());
    assert_eq!(&build_packed(&clock, PACKED_LEN_POCKET)[..10], &mister_footer()[..10]);
}

#[test]
fn the_reserved_size_is_the_producers_and_round_trips() {
    let clock = parse_packed(&mister_footer()).expect("a clock");
    assert_eq!(build_packed(&clock, PACKED_LEN_MISTER).len(), 512);
    assert_eq!(build_packed(&clock, PACKED_LEN_POCKET).len(), 16);
    assert!(build_packed(&clock, PACKED_LEN_MISTER)[10..].iter().all(|&b| b == 0xFF));
}

#[test]
fn a_gba_save_of_the_same_length_is_read_as_the_seiko_chip() {
    let mut gba: Vec<u8> = vec![0u8; 131_072];
    gba.extend_from_slice(&RUBY_FOOTER);
    assert!(matches!(split(&gba, Some("gba")).unwrap().clock, Clock::S3511a(_)));

    let mut gb: Vec<u8> = vec![0u8; 32_768];
    gb.extend_from_slice(&POCKET_FIRST);
    assert!(matches!(split(&gb, Some("gb")).unwrap().clock, Clock::Mbc3(_)));
}

#[test]
fn an_unrecognised_tail_is_not_filed_under_a_chip_key() {
    let mut save = vec![0u8; 32_768];
    save.extend_from_slice(&[0xAB; 12]);
    assert_eq!(split(&save, Some("gb")), None);
}

#[test]
fn an_unstated_system_is_read_as_the_game_boy_family() {
    let save = crystal_save(1_700_000_000);
    let split = split(&save, None).expect("the Game Boy sizes are tried");
    assert_eq!(split.sram.len(), 32_768);
    assert!(matches!(split.clock, Clock::Mbc3(_)));
}

/// The appended footer a bundle's clock is rebuilt into before a producer's shape is chosen.
fn appended(clock: &Mbc3Clock) -> Vec<u8> {
    build_mbc3(&clock.live(), &clock.latched, clock.written_at, 8)
}

#[test]
fn the_producer_picks_the_reserved_size() {
    let clock = parse_packed(&mister_footer()).expect("a clock");
    for (app, want) in [
        ("gameboy-mister", PACKED_LEN_MISTER),
        ("sgb-mister", PACKED_LEN_MISTER),
        ("budude2-gbc", PACKED_LEN_POCKET),
        ("spiritualized-gb", PACKED_LEN_POCKET),
    ] {
        let form = clock_form(false, Some(app));
        assert_eq!(form, ClockForm::Packed(want), "{app}");
        assert_eq!(footer_of_form(Some(appended(&clock)), form).map(|f| f.len()), Some(want), "{app}");
    }
}

#[test]
fn the_producer_decides_which_shape_is_written_back() {
    let clock = parse_packed(&POCKET_FIRST).expect("a clock");
    for (app, want) in [
        ("budude2-gbc", ClockForm::Packed(PACKED_LEN_POCKET)),
        ("gambatte", ClockForm::Sidecar),
        ("sameboy", ClockForm::Mbc3Appended),
        ("mgba", ClockForm::Mbc3Appended),
    ] {
        let form = clock_form(false, Some(app));
        assert_eq!(form, want, "{app}");
        let footer = footer_of_form(Some(appended(&clock)), form);
        match want {
            ClockForm::Sidecar => {
                assert_eq!(footer, None);
                assert_eq!(build_gambatte_sidecar(&clock).len(), 4);
            }
            ClockForm::Packed(PACKED_LEN_POCKET) => {
                assert_eq!(footer.as_deref(), Some(&POCKET_FIRST[..]));
            }
            _ => assert_eq!(footer.map(|f| f.len()), Some(MBC3_LEN_64)),
        }
    }
}

#[test]
fn the_layout_comes_from_the_registry_and_not_from_the_shape_of_the_slug() {
    let clock = parse_packed(&POCKET_FIRST).expect("a clock");
    for (app, want) in [
        ("spiritualized-supergb", ClockForm::Packed(PACKED_LEN_POCKET)),
        ("psx-mister", ClockForm::Mbc3Appended),
        ("n64-mister", ClockForm::Mbc3Appended),
        ("saturn-mister", ClockForm::Mbc3Appended),
        ("pcsx2", ClockForm::Mbc3Appended),
    ] {
        let form = clock_form(false, Some(app));
        assert_eq!(form, want, "{app}");
        let footer = footer_of_form(Some(appended(&clock)), form).expect("appended");
        match want {
            ClockForm::Packed(n) => assert_eq!(footer.len(), n, "{app}"),
            _ => assert_eq!(footer.len(), MBC3_LEN_64, "{app}"),
        }
    }
}

#[test]
fn a_seiko_chip_settles_the_shape_before_the_producer_is_asked() {
    assert_eq!(clock_form(true, Some("gambatte")), ClockForm::S3511a);
    assert_eq!(clock_form(true, None), ClockForm::S3511a);
    assert_eq!(clock_form(false, None), ClockForm::Mbc3Appended);
}

#[test]
fn an_appended_shape_hands_the_footer_back_as_it_is() {
    let footer = SAMEBOY_FOOTER.to_vec();
    assert_eq!(footer_of_form(Some(footer.clone()), ClockForm::Mbc3Appended), Some(footer.clone()));
    assert_eq!(footer_of_form(Some(footer.clone()), ClockForm::Sidecar), None);
    assert_eq!(footer_of_form(None, ClockForm::Packed(PACKED_LEN_POCKET)), None);
    // A tail that is not an MBC3 footer has nothing to re-encode.
    assert_eq!(footer_of_form(Some(vec![1, 2, 3]), ClockForm::Packed(PACKED_LEN_POCKET)), None);
}

#[test]
fn two_dumps_of_one_save_split_to_the_same_save_memory() {
    let first = split(&crystal_save(1_700_000_000), Some("gbc")).expect("a footer");
    let later = crystal_save(1_700_086_400);
    let mut later = later;
    let n = later.len();
    later[n - 48..].copy_from_slice(&mbc3_footer(31, 45, 13, 301, 1_700_086_400));
    let second = split(&later, Some("gbc")).expect("a footer");
    assert_eq!(first.sram, second.sram);
    assert_eq!(first.sram.len(), 32768);
    assert_ne!(first.footer, second.footer);
    for (size, footer_len) in [(2048usize, 44usize), (131_072, 48)] {
        let mut bytes = vec![0x22u8; size];
        let footer = mbc3_footer(1, 2, 3, 4, 5);
        if footer_len == 44 {
            bytes.extend_from_slice(&footer[..40]);
            bytes.extend_from_slice(&5u32.to_le_bytes());
        } else {
            bytes.extend_from_slice(&footer);
        }
        let parts = split(&bytes, None).expect("a footer");
        assert_eq!((parts.sram.len(), parts.footer.len()), (size, footer_len));
    }
    assert!(split(&crystal_save(1), Some("nes")).is_none(), "a system with no footer convention");
}

#[test]
fn wrapping_splits_a_footer_and_reads_a_sidecar_where_nothing_was_appended() {
    let save = crystal_save(1_700_000_000);
    let wrapped = wrap_payload(&save, Some("gbc"), true, None).expect("wraps");
    assert_eq!(wrapped.payload.len(), 32768);
    assert!(wrapped.clock.is_some());
    let inline = wrap_payload(&save, Some("gbc"), false, None).expect("wraps");
    assert_eq!(inline.payload, save);
    assert!(inline.clock.is_none());

    let bare = vec![0x11u8; 32768];
    let with_sidecar = wrap_payload(&bare, Some("gbc"), true, Some((&GAMBATTE_SIDECAR, GAMBATTE_WRITTEN_AT)))
        .expect("wraps");
    assert_eq!(with_sidecar.payload, bare);
    let clock = with_sidecar.clock.expect("a clock");
    assert_eq!(clock.reading.map(|r| r.instant), Some(GAMBATTE_WRITTEN_AT));
    assert!(clock.sram.is_empty() && clock.footer.is_empty());

    assert!(wrap_payload(&bare, None, true, Some((&GAMBATTE_SIDECAR, 1_000_000_000))).is_err());
    match wrap_payload(&[], None, true, None) {
        Err(onesaves::error::Error::NotConvertible(why)) => assert_eq!(why, "this save is zero bytes"),
        other => panic!("expected a refusal, got {other:?}"),
    }
}
