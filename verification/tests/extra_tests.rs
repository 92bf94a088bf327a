use console_core::cues::{Cue, CueList, FixtureValues};
use console_core::engine::LiveState;
use console_core::ordmap::OrderedMap;
use console_core::palette::{Palette, PaletteKind, PaletteValues};
use console_core::progcmd::{try_apply_programmer_line, ApplyStatus};
use console_core::runtime::{htp, ltp, merge_fixture, snapshot_fixture_values};
use console_core::{default_fixture_types, version, ConsoleError, FixtureInstance, Show};
use console_core::{Playback, PlaybackMode, Programmer, Runtime};

fn fv(intensity: Option<u8>, r: Option<u8>, g: Option<u8>, b: Option<u8>) -> FixtureValues {
    FixtureValues { intensity, r, g, b }
}

fn cue(number: u32, label: &str, block: bool, fade_ms: u32, delay_ms: u32, ch: &[(u64, FixtureValues)]) -> Cue {
    let mut changes = OrderedMap::new();
    for &(k, v) in ch {
        changes.set(k, v);
    }
    Cue {
        number,
        label: label.to_string(),
        block,
        fade_ms,
        delay_ms,
        changes,
    }
}

fn par_show() -> Show {
    let mut show = Show::new("Test");
    for ft in default_fixture_types() {
        show.patch.add_fixture_type(ft);
    }
    show.patch
        .add_fixture(FixtureInstance::new(1, "PAR 1", "rgb_par_3ch", 1, 1))
        .unwrap();
    show
}

#[test]
fn version_string() {
    assert_eq!(version(), "0.1.0");
}

#[test]
fn default_library_contents() {
    let types = default_fixture_types();
    assert_eq!(types.len(), 2);
    assert_eq!(types[0].type_id, "rgb_par_3ch");
    assert_eq!(types[0].channels.len(), 3);
    assert_eq!(types[1].type_id, "dimmer_1ch");
    assert_eq!(types[1].channels.len(), 1);
}

#[test]
fn block_cue_erases_tracking() {
    let mut show = par_show();
    let mut cl = CueList::ensure();
    cl.set_cue(cue(1, "Red", false, 0, 0, &[(1, fv(None, Some(255), None, None))]));
    cl.set_cue(cue(2, "Block green", true, 0, 0, &[(1, fv(None, None, Some(128), None))]));
    show.set_cue_list("main", cl);

    let mut pb = Playback::new("main");
    pb.goto(&show, 2).unwrap();
    let nz = pb.render(&show).unwrap().nonzero();
    assert!(nz.contains(&(1, 2, 128)));
    assert!(!nz.contains(&(1, 1, 255)), "red must not survive the block cue");
}

#[test]
fn cue_only_ignores_history() {
    let mut show = par_show();
    let mut cl = CueList::ensure();
    cl.set_cue(cue(1, "Red", false, 0, 0, &[(1, fv(None, Some(255), None, None))]));
    cl.set_cue(cue(2, "Blue", false, 0, 0, &[(1, fv(None, None, None, Some(255)))]));
    show.set_cue_list("main", cl);

    let mut pb = Playback::new("main");
    pb.mode = PlaybackMode::CueOnly;
    pb.goto(&show, 2).unwrap();
    let nz = pb.render(&show).unwrap().nonzero();
    assert!(nz.contains(&(1, 3, 255)));
    assert!(!nz.contains(&(1, 1, 255)), "cue-only state must not track red");
}

#[test]
fn steady_output_is_fully_resolved() {
    let mut show = par_show();
    let mut cl = CueList::ensure();
    cl.set_cue(cue(1, "Red", false, 0, 0, &[(1, fv(None, Some(9), None, None))]));
    show.set_cue_list("main", cl);

    let mut pb = Playback::new("main");
    pb.goto(&show, 1).unwrap();
    let st = pb.output_state_map(&show).unwrap();
    let vals = st.get(1).unwrap();
    assert_eq!(vals.intensity, Some(0));
    assert_eq!(vals.r, Some(9));
    assert_eq!(vals.g, Some(0));
    assert_eq!(vals.b, Some(0));
}

#[test]
fn delay_holds_the_previous_look() {
    let mut show = par_show();
    let mut cl = CueList::ensure();
    cl.set_cue(cue(1, "Base", false, 0, 0, &[(1, fv(None, Some(0), None, None))]));
    cl.set_cue(cue(2, "Delayed red", false, 1000, 500, &[(1, fv(None, Some(255), None, None))]));
    show.set_cue_list("main", cl);

    let mut pb = Playback::new("main");
    pb.goto(&show, 1).unwrap();
    pb.goto(&show, 2).unwrap();

    pb.tick(300);
    let held = pb.output_state_map(&show).unwrap();
    assert_eq!(held.get(1).unwrap().r, Some(0), "during the delay the old look holds");

    pb.tick(300); // 600 elapsed: 100 into the fade
    let faded = pb.output_state_map(&show).unwrap();
    assert_eq!(faded.get(1).unwrap().r, Some(25)); // 255 * 100 / 1000 = 25

    pb.tick(5000);
    let done = pb.output_state_map(&show).unwrap();
    assert_eq!(done.get(1).unwrap().r, Some(255));
    assert_eq!(pb.transition_info(), None, "transition completes after delay + fade");
}

#[test]
fn chained_go_uses_momentary_look() {
    let mut show = par_show();
    let mut cl = CueList::ensure();
    cl.set_cue(cue(1, "Base", false, 0, 0, &[(1, fv(None, Some(0), None, None))]));
    cl.set_cue(cue(2, "Red up", false, 1000, 0, &[(1, fv(None, Some(255), None, None))]));
    cl.set_cue(cue(3, "Red down", false, 1000, 0, &[(1, fv(None, Some(0), None, None))]));
    show.set_cue_list("main", cl);

    let mut pb = Playback::new("main");
    pb.goto(&show, 1).unwrap();
    pb.goto(&show, 2).unwrap();
    pb.tick(500); // mid-fade: r = 127
    pb.goto(&show, 3).unwrap(); // new transition starts from the momentary look

    let st = pb.output_state_map(&show).unwrap();
    assert_eq!(st.get(1).unwrap().r, Some(127), "the new `from` is the mid-fade value");

    pb.tick(500); // halfway down from 127 to 0
    let st2 = pb.output_state_map(&show).unwrap();
    assert_eq!(st2.get(1).unwrap().r, Some(64)); // 127 - 127 * 500 / 1000
}

#[test]
fn htp_and_ltp_rules() {
    assert_eq!(htp(None, None), None);
    assert_eq!(htp(Some(10), Some(200)), Some(200));
    assert_eq!(htp(Some(200), Some(10)), Some(200));
    assert_eq!(htp(None, Some(5)), Some(5));
    assert_eq!(htp(Some(5), None), Some(5));

    assert_eq!(ltp(Some(1), Some(2)), Some(2));
    assert_eq!(ltp(Some(1), None), Some(1));
    assert_eq!(ltp(None, Some(2)), Some(2));
    assert_eq!(ltp(None, None), None);

    let a = fv(Some(200), Some(100), None, Some(7));
    let b = fv(Some(150), Some(50), Some(60), None);
    let m = merge_fixture(Some(&a), Some(&b));
    assert_eq!(m.intensity, Some(200)); // HTP
    assert_eq!(m.r, Some(50)); // LTP, B wins
    assert_eq!(m.g, Some(60)); // LTP, only B set
    assert_eq!(m.b, Some(7)); // LTP, B unset, A's value
}

#[test]
fn runtime_merges_two_playbacks() {
    let mut show = Show::new("Merge");
    for ft in default_fixture_types() {
        show.patch.add_fixture_type(ft);
    }
    show.patch
        .add_fixture(FixtureInstance::new(1, "PAR 1", "rgb_par_3ch", 1, 1))
        .unwrap();
    show.patch
        .add_fixture(FixtureInstance::new(10, "DIM 1", "dimmer_1ch", 1, 100))
        .unwrap();

    let mut main_cl = CueList::ensure();
    main_cl.set_cue(cue(
        1,
        "A look",
        false,
        0,
        0,
        &[(1, fv(None, Some(100), None, None)), (10, fv(Some(200), None, None, None))],
    ));
    show.set_cue_list("main", main_cl);

    let mut alt_cl = CueList::ensure();
    alt_cl.set_cue(cue(
        1,
        "B look",
        false,
        0,
        0,
        &[(1, fv(None, Some(50), None, None)), (10, fv(Some(150), None, None, None))],
    ));
    show.set_cue_list("alt", alt_cl);

    let mut rt = Runtime::new(show);
    rt.playback_b = Playback::new("alt");
    rt.playback_a.goto(&rt.show, 1).unwrap();
    rt.playback_b.goto(&rt.show, 1).unwrap();

    let nz = rt.render().unwrap().nonzero();
    assert!(nz.contains(&(1, 1, 50)), "LTP: B's red wins");
    assert!(nz.contains(&(1, 100, 200)), "HTP: the higher intensity wins");
}

#[test]
fn parser_is_monotonic_over_prefixes() {
    let mut p1 = Programmer::new();
    assert_eq!(try_apply_programmer_line("101", &mut p1), ApplyStatus::Applied);
    assert_eq!(try_apply_programmer_line("101 thru 105", &mut p1), ApplyStatus::Applied);

    let mut p2 = Programmer::new();
    assert_eq!(try_apply_programmer_line("101 thru 105", &mut p2), ApplyStatus::Applied);

    for id in 99..=107u32 {
        assert_eq!(p1.selected_contains(id), p2.selected_contains(id));
        assert_eq!(p1.selected_contains(id), (101..=105).contains(&id));
    }
}

#[test]
fn incomplete_at_applies_selection() {
    let mut p = Programmer::new();
    assert_eq!(try_apply_programmer_line("3 @", &mut p), ApplyStatus::Incomplete);
    assert!(p.selected_contains(3), "the selection lands before the level arrives");
    assert_eq!(p.intensity, None);
}

#[test]
fn incomplete_thru_leaves_programmer_untouched() {
    let mut p = Programmer::new();
    p.select_one(42);
    assert_eq!(try_apply_programmer_line("101 thru", &mut p), ApplyStatus::Incomplete);
    assert!(p.selected_contains(42));
    assert!(!p.selected_contains(101));
}

#[test]
fn parser_levels_and_case() {
    let mut p = Programmer::new();
    assert_eq!(try_apply_programmer_line("5 @ out", &mut p), ApplyStatus::Applied);
    assert_eq!(p.intensity, Some(0));
    assert_eq!(try_apply_programmer_line("5 @ FULL", &mut p), ApplyStatus::Applied);
    assert_eq!(p.intensity, Some(255));
    assert_eq!(try_apply_programmer_line("7 THRU 9 @ 50", &mut p), ApplyStatus::Applied);
    assert_eq!(p.intensity, Some(127)); // 50 * 255 / 100 = 127
    assert!(p.selected_contains(8));
}

#[test]
fn percent_scaling_clamps_and_truncates() {
    let mut p = Programmer::new();
    p.set_intensity_percent(0);
    assert_eq!(p.intensity, Some(0));
    p.set_intensity_percent(50);
    assert_eq!(p.intensity, Some(127));
    p.set_intensity_percent(100);
    assert_eq!(p.intensity, Some(255));
    p.set_intensity_percent(150);
    assert_eq!(p.intensity, Some(255), "percent above 100 clamps");
}

#[test]
fn select_range_accepts_either_order() {
    let mut p = Programmer::new();
    p.select_range(5, 3);
    assert!(p.selected_contains(3));
    assert!(p.selected_contains(4));
    assert!(p.selected_contains(5));
    assert!(!p.selected_contains(2));
    assert!(!p.selected_contains(6));
}

#[test]
fn clear_values_keeps_selection() {
    let mut p = Programmer::new();
    p.select_one(9);
    p.set_rgb(1, 2, 3);
    p.set_intensity_percent(10);
    p.clear_values();
    assert!(p.selected_contains(9));
    assert_eq!(p.intensity, None);
    assert_eq!(p.r, None);
    p.clear_all();
    assert!(!p.selected_contains(9));
}

#[test]
fn intensity_palette_touches_only_intensity() {
    let mut p = Programmer::new();
    p.set_rgb(1, 2, 3);
    let pal = Palette::new(
        PaletteKind::Intensity,
        PaletteValues { intensity: Some(44), r: Some(99), g: None, b: None },
    );
    p.apply_palette(&pal);
    assert_eq!(p.intensity, Some(44));
    assert_eq!(p.r, Some(1), "a palette never writes fields outside its kind");

    let partial = Palette::new(
        PaletteKind::Color,
        PaletteValues { intensity: None, r: None, g: Some(77), b: None },
    );
    p.apply_palette(&partial);
    assert_eq!(p.r, Some(1), "unset palette fields never clear programmer fields");
    assert_eq!(p.g, Some(77));
}

#[test]
fn patch_errors() {
    let mut show = Show::new("Errs");
    for ft in default_fixture_types() {
        show.patch.add_fixture_type(ft);
    }
    show.patch
        .add_fixture(FixtureInstance::new(1, "PAR 1", "rgb_par_3ch", 1, 1))
        .unwrap();

    let dup = show
        .patch
        .add_fixture(FixtureInstance::new(1, "PAR 1 again", "rgb_par_3ch", 1, 10));
    assert_eq!(dup, Err(ConsoleError::DuplicateFixture(1)));

    let unknown = show
        .patch
        .add_fixture(FixtureInstance::new(2, "Mover", "moving_head_16ch", 1, 20));
    assert_eq!(
        unknown,
        Err(ConsoleError::UnknownFixtureType("moving_head_16ch".to_string()))
    );
    assert_eq!(show.patch.list_fixtures().len(), 1);
}

#[test]
fn render_error_unknown_fixture() {
    let show = par_show();
    let mut p = Programmer::new();
    p.select_one(77);
    p.set_rgb(1, 2, 3);
    assert!(matches!(p.render(&show), Err(ConsoleError::UnknownFixture(77))));
}

#[test]
fn render_error_address_out_of_range() {
    let mut show = Show::new("Range");
    for ft in default_fixture_types() {
        show.patch.add_fixture_type(ft);
    }
    // channels 511, 512, 513: the third falls outside the universe
    show.patch
        .add_fixture(FixtureInstance::new(1, "PAR high", "rgb_par_3ch", 1, 511))
        .unwrap();
    // a dimmer at 512 is still legal
    show.patch
        .add_fixture(FixtureInstance::new(2, "DIM top", "dimmer_1ch", 1, 512))
        .unwrap();

    let mut p = Programmer::new();
    p.select_one(2);
    p.set_intensity_percent(100);
    assert!(p.render(&show).is_ok());

    p.clear_all();
    p.select_one(1);
    p.set_rgb(1, 2, 3);
    assert!(matches!(p.render(&show), Err(ConsoleError::AddressOutOfRange(1))));
}

#[test]
fn unknown_cue_list_error() {
    let show = par_show();
    let mut pb = Playback::new("nope");
    assert_eq!(
        pb.goto(&show, 1),
        Err(ConsoleError::UnknownCueList("nope".to_string()))
    );
    assert_eq!(pb.go(&show), Err(ConsoleError::UnknownCueList("nope".to_string())));
}

#[test]
fn go_walks_the_cue_list_without_wrapping() {
    let mut show = par_show();
    let mut cl = CueList::ensure();
    cl.set_cue(cue(1, "One", false, 0, 0, &[(1, fv(None, Some(1), None, None))]));
    cl.set_cue(cue(3, "Three", false, 0, 0, &[(1, fv(None, Some(3), None, None))]));
    show.set_cue_list("main", cl);

    let mut pb = Playback::new("main");
    assert_eq!(pb.go(&show).unwrap(), Some(1));
    assert_eq!(pb.go(&show).unwrap(), Some(3));
    assert_eq!(pb.go(&show).unwrap(), Some(3), "go on the last cue stays put");

    let mut idle = Playback::new("empty");
    show.set_cue_list("empty", CueList::ensure());
    assert_eq!(idle.go(&show).unwrap(), None);
    assert_eq!(idle.current, None);
}

#[test]
fn deleting_the_current_cue_clears_the_cursor() {
    let mut show = par_show();
    let mut cl = CueList::ensure();
    cl.set_cue(cue(1, "One", false, 0, 0, &[(1, fv(None, Some(1), None, None))]));
    show.set_cue_list("main", cl);

    let mut pb = Playback::new("main");
    pb.goto(&show, 1).unwrap();
    assert_eq!(pb.current, Some(1));

    show.remove_cue_in_list("main", 1).unwrap();
    pb.on_cue_deleted(1);
    assert_eq!(pb.current, None);
    assert_eq!(pb.transition_info(), None);

    let live = pb.render(&show).unwrap();
    assert!(live.nonzero().is_empty());
}

#[test]
fn nonzero_is_sorted_and_skips_zeroes() {
    let mut live = LiveState::new();
    live.set(2, 5, 9);
    live.set(1, 7, 3);
    live.set(1, 2, 0);
    live.set(1, 3, 4);
    assert_eq!(live.nonzero(), vec![(1, 3, 4), (1, 7, 3), (2, 5, 9)]);
}

#[test]
fn overlay_prefers_the_top_state() {
    let mut base = LiveState::new();
    base.set(1, 1, 10);
    base.set(1, 2, 20);
    let mut top = LiveState::new();
    top.set(1, 2, 99);
    top.set(1, 4, 40);
    base.overlay(&top);
    assert_eq!(base.nonzero(), vec![(1, 1, 10), (1, 2, 99), (1, 4, 40)]);
}

#[test]
fn snapshot_reads_playback_and_programmer() {
    let mut show = par_show();
    let mut cl = CueList::ensure();
    cl.set_cue(cue(1, "Red", false, 0, 0, &[(1, fv(None, Some(255), None, None))]));
    show.set_cue_list("main", cl);

    let mut pb = Playback::new("main");
    pb.goto(&show, 1).unwrap();

    let mut prog = Programmer::new();
    prog.intensity = Some(40);

    let snap = snapshot_fixture_values(&show, &pb, &prog, 1).unwrap();
    assert_eq!(snap.intensity, Some(40), "the programmer overlays the tracked value");
    assert_eq!(snap.r, Some(255));
    assert_eq!(snap.g, Some(0));
    assert_eq!(snap.b, Some(0));
}

#[test]
fn cue_list_get_set_remove() {
    let mut cl = CueList::ensure();
    cl.set_cue(cue(5, "Five", false, 0, 0, &[]));
    assert!(cl.get(5).is_some());
    assert_eq!(cl.get(5).unwrap().label, "Five");
    assert!(cl.get(4).is_none());

    cl.set_cue(cue(5, "Five again", true, 7, 8, &[]));
    assert_eq!(cl.get(5).unwrap().label, "Five again");
    assert!(cl.get(5).unwrap().block);

    cl.remove_cue(5);
    assert!(cl.get(5).is_none());
}

#[test]
fn values_delta_and_resolution() {
    let mut v = FixtureValues::default();
    assert!(v.is_all_none());
    v.apply_delta(&fv(Some(10), None, Some(20), None));
    assert_eq!(v.intensity, Some(10));
    assert_eq!(v.g, Some(20));
    v.apply_delta(&fv(None, Some(30), None, None));
    assert_eq!(v.intensity, Some(10), "unset delta fields pass values through");
    assert_eq!(v.r, Some(30));

    let r = v.resolve();
    assert_eq!(r.b, Some(0), "resolution fills unset fields with 0");
    assert!(!v.is_all_none());
}

#[test]
fn groups_and_palettes_are_stored_by_name() {
    let mut show = Show::new("Store");
    show.set_group("wash", vec![1, 2, 3]);
    assert_eq!(show.group("wash"), Some(&vec![1, 2, 3]));
    assert_eq!(show.group("spots"), None);

    let pal = Palette::new(
        PaletteKind::Color,
        PaletteValues { intensity: None, r: Some(255), g: None, b: None },
    );
    show.set_palette("red", pal);
    assert!(show.palette("red").is_some());
    assert!(show.palette("blue").is_none());
}

#[test]
fn block_flag_can_be_set_and_cleared() {
    let mut show = par_show();
    let mut cl = CueList::ensure();
    cl.set_cue(cue(2, "Two", false, 9, 11, &[(1, fv(None, Some(5), None, None))]));
    show.set_cue_list("main", cl);

    assert_eq!(show.set_cue_block("main", 2, true), Ok(()));
    let c = show.cue_list("main").unwrap().get(2).unwrap();
    assert!(c.block);
    assert_eq!(c.label, "Two");
    assert_eq!(c.fade_ms, 9);
    assert_eq!(c.delay_ms, 11);
    assert_eq!(c.changes.get(1).map(|v| v.r), Some(Some(5)));

    assert_eq!(show.set_cue_block("main", 2, false), Ok(()));
    assert!(!show.cue_list("main").unwrap().get(2).unwrap().block);

    assert_eq!(show.set_cue_block("main", 7, true), Err(ConsoleError::UnknownCue(7)));
    assert_eq!(
        show.set_cue_block("aux", 2, true),
        Err(ConsoleError::UnknownCueList("aux".to_string()))
    );
}

#[test]
fn runtime_delete_cue_clears_pointing_playbacks() {
    let mut show = par_show();
    let mut cl = CueList::ensure();
    cl.set_cue(cue(1, "One", false, 0, 0, &[(1, fv(None, Some(1), None, None))]));
    cl.set_cue(cue(2, "Two", false, 0, 0, &[(1, fv(None, Some(2), None, None))]));
    show.set_cue_list("main", cl);

    let mut rt = Runtime::new(show);
    rt.playback_a.goto(&rt.show, 1).unwrap();
    rt.playback_b.goto(&rt.show, 2).unwrap();

    rt.delete_cue("main", 1).unwrap();
    assert_eq!(rt.playback_a.current, None, "the playback on the deleted cue resets");
    assert_eq!(rt.playback_b.current, Some(2), "other playbacks keep their cursor");
    assert!(rt.show.cue_list("main").unwrap().get(1).is_none());

    assert_eq!(
        rt.delete_cue("aux", 2),
        Err(ConsoleError::UnknownCueList("aux".to_string()))
    );
}

#[test]
fn tokenizer_handles_extra_whitespace() {
    let mut p = Programmer::new();
    let st = try_apply_programmer_line("   101  \t thru\t105   @   full  ", &mut p);
    assert_eq!(st, ApplyStatus::Applied);
    assert!(p.selected_contains(101));
    assert!(p.selected_contains(105));
    assert_eq!(p.intensity, Some(255));
}

#[test]
fn parser_rejects_junk_and_waits_on_big_levels() {
    let mut p = Programmer::new();
    assert_eq!(try_apply_programmer_line("101x", &mut p), ApplyStatus::NotProgrammer);
    assert_eq!(try_apply_programmer_line("101 nope", &mut p), ApplyStatus::NotProgrammer);
    assert_eq!(try_apply_programmer_line("", &mut p), ApplyStatus::NotProgrammer);
    assert!(!p.selected_contains(101), "rejected lines touch nothing");

    assert_eq!(try_apply_programmer_line("9 @ 150", &mut p), ApplyStatus::Incomplete);
    assert!(p.selected_contains(9), "the selection lands even when the level is unusable");
    assert_eq!(p.intensity, None);

    assert_eq!(try_apply_programmer_line("007", &mut p), ApplyStatus::Applied);
    assert!(p.selected_contains(7), "leading zeros read as the same number");

    assert_eq!(
        try_apply_programmer_line("99999999999999999999", &mut p),
        ApplyStatus::NotProgrammer,
        "a number that does not fit is not programmer syntax"
    );
}

#[test]
fn goto_accepts_an_absent_cue_number() {
    let mut show = par_show();
    let mut cl = CueList::ensure();
    cl.set_cue(cue(1, "Red", false, 0, 0, &[(1, fv(None, Some(255), None, None))]));
    show.set_cue_list("main", cl);

    let mut pb = Playback::new("main");
    pb.goto(&show, 99).unwrap();
    assert_eq!(pb.current, Some(99), "the cursor lands on the number even when absent");
    assert_eq!(pb.transition_info(), None, "absent cues have zero timings and snap");

    // Tracking at 99 still accumulates every cue up to 99.
    let nz = pb.render(&show).unwrap().nonzero();
    assert!(nz.contains(&(1, 1, 255)));

    // Go from an absent cue walks to the next greater number, if any.
    assert_eq!(pb.go(&show).unwrap(), Some(99), "no cue above 99: go stays put");
    pb.goto(&show, 0).unwrap();
    assert_eq!(pb.go(&show).unwrap(), Some(1));
}
