use console_core::cues::{Cue, CueList, FixtureValues};
use console_core::ordmap::OrderedMap;
use console_core::palette::{Palette, PaletteKind, PaletteValues};
use console_core::progcmd::{try_apply_programmer_line, ApplyStatus};
use console_core::{default_fixture_types, FixtureInstance, Show};
use console_core::{Playback, PlaybackMode, Programmer, Runtime};

fn rgb(r: Option<u8>, g: Option<u8>, b: Option<u8>) -> FixtureValues {
    FixtureValues {
        intensity: None,
        r,
        g,
        b,
    }
}

#[test]
fn render_rgb_par() {
    let mut show = Show::new("Test");
    for ft in default_fixture_types() {
        show.patch.add_fixture_type(ft);
    }

    show.patch
        .add_fixture(FixtureInstance::new(1, "PAR 1", "rgb_par_3ch", 1, 1))
        .unwrap();

    let mut p = Programmer::new();
    p.select_one(1);
    p.set_rgb(10, 20, 30);

    let live = p.render(&show).unwrap();
    let nz = live.nonzero();

    assert!(nz.contains(&(1, 1, 10)));
    assert!(nz.contains(&(1, 2, 20)));
    assert!(nz.contains(&(1, 3, 30)));
}

#[test]
fn render_dimmer_intensity() {
    let mut show = Show::new("Test");
    for ft in default_fixture_types() {
        show.patch.add_fixture_type(ft);
    }

    show.patch
        .add_fixture(FixtureInstance::new(10, "DIM 1", "dimmer_1ch", 1, 100))
        .unwrap();

    let mut p = Programmer::new();
    p.select_one(10);
    p.set_intensity_percent(100);

    let live = p.render(&show).unwrap();
    let nz = live.nonzero();

    assert!(nz.contains(&(1, 100, 255)));
}

#[test]
fn apply_color_palette_sets_rgb() {
    let mut p = Programmer::new();
    let pal = Palette::new(
        PaletteKind::Color,
        PaletteValues {
            intensity: None,
            r: Some(1),
            g: Some(2),
            b: Some(3),
        },
    );

    p.apply_palette(&pal);

    assert_eq!(p.r, Some(1));
    assert_eq!(p.g, Some(2));
    assert_eq!(p.b, Some(3));
}

#[test]
fn fade_interpolates_over_time() {
    let mut show = Show::new("Test");
    for ft in default_fixture_types() {
        show.patch.add_fixture_type(ft);
    }
    show.patch
        .add_fixture(FixtureInstance::new(1, "PAR 1", "rgb_par_3ch", 1, 1))
        .unwrap();

    let mut cl = CueList::ensure();

    // Cue 1: explicit red 0 (baseline)
    let mut changes1 = OrderedMap::new();
    changes1.set(1, rgb(Some(0), None, None));
    cl.set_cue(Cue {
        number: 1,
        label: "Base".to_string(),
        block: false,
        fade_ms: 0,
        delay_ms: 0,
        changes: changes1,
    });

    // Cue 2: red 255 with fade 1000ms
    let mut changes2 = OrderedMap::new();
    changes2.set(1, rgb(Some(255), None, None));
    cl.set_cue(Cue {
        number: 2,
        label: "Fade to Red".to_string(),
        block: false,
        fade_ms: 1000,
        delay_ms: 0,
        changes: changes2,
    });

    show.set_cue_list("main", cl);

    let mut pb = Playback::new("main");
    pb.goto(&show, 1).unwrap();
    pb.goto(&show, 2).unwrap(); // start fade

    // at t=0, should still be from-state
    let st0 = pb.output_state_map(&show).unwrap();
    assert_eq!(st0.get(1).unwrap().r, Some(0));

    pb.tick(500);
    let st1 = pb.output_state_map(&show).unwrap();
    assert_eq!(st1.get(1).unwrap().r, Some(127)); // 255 * 500 / 1000 = 127

    pb.tick(500);
    let st2 = pb.output_state_map(&show).unwrap();
    assert_eq!(st2.get(1).unwrap().r, Some(255));
}

#[test]
fn tracking_works_across_cues() {
    let mut show = Show::new("Test");
    for ft in default_fixture_types() {
        show.patch.add_fixture_type(ft);
    }
    show.patch
        .add_fixture(FixtureInstance::new(1, "PAR 1", "rgb_par_3ch", 1, 1))
        .unwrap();

    // Cue 1: set Red only
    let mut cl = CueList::ensure();
    let mut changes1 = OrderedMap::new();
    changes1.set(1, rgb(Some(255), None, None));
    cl.set_cue(Cue {
        number: 1,
        label: "Red".to_string(),
        fade_ms: 0,
        delay_ms: 0,
        block: false,
        changes: changes1,
    });

    // Cue 2: set Blue only -> Red should track from cue 1
    let mut changes2 = OrderedMap::new();
    changes2.set(1, rgb(None, None, Some(255)));
    cl.set_cue(Cue {
        number: 2,
        label: "Blue add".to_string(),
        fade_ms: 0,
        delay_ms: 0,
        block: false,
        changes: changes2,
    });

    show.set_cue_list("main", cl);

    let mut pb = Playback::new("main");
    pb.goto(&show, 2).unwrap();

    let live = pb.render(&show).unwrap();
    let nz = live.nonzero();

    // PAR 1 @ U1:1..3 => R at 1, B at 3
    assert!(nz.contains(&(1, 1, 255)));
    assert!(nz.contains(&(1, 3, 255)));
}

#[test]
fn parses_range_full() {
    let mut p = Programmer::new();
    let st = try_apply_programmer_line("101 thru 105 @ full", &mut p);
    assert_eq!(st, ApplyStatus::Applied);
    assert!(p.selected_contains(101));
    assert!(p.selected_contains(105));
    assert_eq!(p.intensity, Some(255));
}

#[test]
fn incomplete_thru_is_incomplete() {
    let mut p = Programmer::new();
    let st = try_apply_programmer_line("101 thru", &mut p);
    assert_eq!(st, ApplyStatus::Incomplete);
}

#[test]
fn non_programmer_lines_are_ignored() {
    let mut p = Programmer::new();
    let st = try_apply_programmer_line("help", &mut p);
    assert_eq!(st, ApplyStatus::NotProgrammer);
}

#[test]
fn parses_at_50() {
    let mut p = Programmer::new();
    let st = try_apply_programmer_line("1 thru 2 @ 50", &mut p);
    assert_eq!(st, ApplyStatus::Applied);
    assert!(p.selected_contains(1));
    assert!(p.selected_contains(2));
}

fn make_test_show() -> Show {
    let mut show = Show::new("Test Show");

    // fixture types (includes "rgb_par_3ch")
    for ft in default_fixture_types() {
        show.patch.add_fixture_type(ft);
    }

    // patch one RGB PAR at U1 @ 1 with fixture_id=1
    let f = FixtureInstance::new(1, "PAR 1", "rgb_par_3ch", 1, 1);
    show.patch.add_fixture(f).unwrap();

    show
}

#[test]
fn programmer_overrides_playback() {
    let mut show = make_test_show();

    // cue 1 sets fixture 1 red = 200
    let mut changes = OrderedMap::new();
    changes.set(1, rgb(Some(200), None, None));

    let cue1 = Cue {
        number: 1,
        label: "PB Red".to_string(),
        changes,
        fade_ms: 0,
        delay_ms: 0,
        block: false,
    };

    show.set_cue_in_list("main", cue1).unwrap();

    // runtime
    let mut rt = Runtime::new(show);

    // playback A -> cue 1
    rt.playback_a.mode = PlaybackMode::CueOnly;
    rt.playback_a.goto(&rt.show, 1).unwrap();

    // verify playback alone is red=200 at U1:001
    let pb_live = rt.playback_a.render(&rt.show).unwrap();
    assert!(
        pb_live
            .nonzero()
            .iter()
            .any(|&(u, a, v)| u == 1 && a == 1 && v == 200),
        "expected playback to output U1:001=200"
    );

    // programmer overrides fixture 1 red = 10
    rt.programmer.select_one(1);
    rt.programmer.r = Some(10);

    let live = rt.render().unwrap();
    assert!(
        live.nonzero()
            .iter()
            .any(|&(u, a, v)| u == 1 && a == 1 && v == 10),
        "expected runtime output U1:001=10 after programmer overlay"
    );
    assert!(
        !live
            .nonzero()
            .iter()
            .any(|&(u, a, v)| u == 1 && a == 1 && v == 200),
        "expected programmer to override playback (no U1:001=200)"
    );
}
