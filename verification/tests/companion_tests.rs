use jepa::companion::{observer_failed, observer_succeeded, Observer};
use jepa::companion::{ears_tick, eyes_tick, EarsStep, EyesCursor, EyesStep};
use jepa::companion::{motion_stats, MotionStats, animation_over, eyes_closed, BehaviourKind, CompanionMode, Cue, CueBook, CueKind, TriggerClock};

type TestCue = Cue<BehaviourKind>;

#[test]
fn behaviours_have_labels_and_durations() {
    assert_eq!(BehaviourKind::Nod.duration_ticks(), Some(45));
    assert_eq!(BehaviourKind::Dance.duration_ticks(), Some(120));
    assert_eq!(BehaviourKind::Sleep.duration_ticks(), Some(180));
    assert_eq!(BehaviourKind::Acknowledge.duration_ticks(), Some(36));
    assert_eq!(BehaviourKind::Pose.duration_ticks(), None);
    assert_eq!(BehaviourKind::Mood.duration_ticks(), None);
    assert_eq!(BehaviourKind::WaveLeft.label(), "wave_left");
    assert_eq!(CompanionMode::default(), CompanionMode::Manual);
}

#[test]
fn cue_keys_name_the_kind() {
    assert_eq!(TestCue::key(CueKind::Gesture, "wave"), "gesture:wave");
    assert_eq!(TestCue::key(CueKind::Sound, "clap"), "sound:clap");
}

#[test]
fn cue_book_replaces_lists_by_key_and_removes() {
    let mut book: CueBook<BehaviourKind> = CueBook::new();
    book.set_cue(Cue { kind: CueKind::Sound, name: "clap".to_string(), behaviour: BehaviourKind::Nod });
    book.set_cue(Cue { kind: CueKind::Gesture, name: "wave".to_string(), behaviour: BehaviourKind::Cheer });
    book.set_cue(Cue { kind: CueKind::Gesture, name: "fist".to_string(), behaviour: BehaviourKind::Shake });
    book.set_cue(Cue { kind: CueKind::Sound, name: "clap".to_string(), behaviour: BehaviourKind::Dance });
    assert_eq!(book.len(), 3);
    assert_eq!(book.get(CueKind::Sound, "clap").unwrap().behaviour, BehaviourKind::Dance);
    assert!(book.get(CueKind::Gesture, "clap").is_none());
    let order: Vec<String> = (0..book.len()).map(|i| book.nth(i).unwrap().name.clone()).collect();
    assert_eq!(order, vec!["fist", "wave", "clap"]);
    assert!(book.remove_cue(CueKind::Gesture, "wave"));
    assert!(!book.remove_cue(CueKind::Gesture, "wave"));
    assert_eq!(book.len(), 2);
}

#[test]
fn triggers_cool_down_for_two_seconds() {
    let mut clock = TriggerClock::new();
    assert!(clock.fire("sound:clap", 100));
    assert!(!clock.fire("sound:clap", 159));
    assert!(clock.fire("sound:*loud", 159));
    assert!(clock.fire("sound:clap", 160));
    assert!(!clock.fire("sound:clap", 50));
}

#[test]
fn blinks_and_animation_timing() {
    assert!(eyes_closed(0, false));
    assert!(eyes_closed(123, false));
    assert!(!eyes_closed(4, false));
    assert!(eyes_closed(4, true));
    assert!(!animation_over(10, 45, 54));
    assert!(animation_over(10, 45, 55));
}

#[test]
fn motion_counts_changed_pixels_and_their_coordinates() {
    let (w, h) = (8usize, 4usize);
    let prev = vec![0u8; w * h];
    let mut cur = prev.clone();
    cur[3 * w + 7] = 255; // bottom right
    cur[w + 2] = 29; // just over the threshold
    cur[5] = 28; // not over it
    let m = motion_stats(&prev, &cur, w, h).unwrap();
    assert_eq!(m, MotionStats { changed: 2, sum_x: 7 + 2, sum_y: 3 + 1 });
    // Darkening counts as well as brightening.
    let m = motion_stats(&cur, &prev, w, h).unwrap();
    assert_eq!(m.changed, 2);
    // Mismatched sizes and empty frames give nothing.
    assert!(motion_stats(&prev, &cur[1..], w, h).is_none());
    assert!(motion_stats(&prev, &cur, w, h + 1).is_none());
    assert!(motion_stats(&[], &[], 0, 4).is_none());
}

#[test]
fn the_eyes_watch_only_when_interactive_and_embed_at_most_every_300_ms() {
    let mut c = EyesCursor { prev_sequence: None, last_embed_ms: 0 };
    let s = eyes_tick(&mut c, true, Some(1), 100, true);
    assert_eq!(s, EyesStep { compare_motion: false, keep_thumbnail: true, embed: false });
    let s = eyes_tick(&mut c, true, Some(2), 300, true);
    assert_eq!(s, EyesStep { compare_motion: true, keep_thumbnail: true, embed: true });
    assert_eq!(c.last_embed_ms, 300);
    // Same frame again: no motion; too early to embed.
    let s = eyes_tick(&mut c, true, Some(2), 400, true);
    assert_eq!(s, EyesStep { compare_motion: false, keep_thumbnail: true, embed: false });
    // Nothing taught: the interval passes but nothing is embedded.
    assert!(!eyes_tick(&mut c, true, None, 700, false).embed);
    assert_eq!(c.last_embed_ms, 700);
    let s = eyes_tick(&mut c, false, Some(3), 2000, true);
    assert_eq!(s, EyesStep { compare_motion: false, keep_thumbnail: false, embed: false });
    assert_eq!(c.prev_sequence, None);
    assert_eq!(ears_tick(false, true), EarsStep::Skip);
    assert_eq!(ears_tick(true, false), EarsStep::LevelOnly);
    assert_eq!(ears_tick(true, true), EarsStep::Listen);
}

#[test]
fn observer_errors_are_reported_and_cleared_by_their_observer() {
    let mut e: Option<String> = None;
    observer_failed(&mut e, Observer::Eyes, "No model loaded");
    assert_eq!(e.as_deref(), Some("Watching: No model loaded"));
    // A listening success does not clear a watching error.
    observer_succeeded(&mut e, Observer::Ears);
    assert_eq!(e.as_deref(), Some("Watching: No model loaded"));
    observer_succeeded(&mut e, Observer::Eyes);
    assert_eq!(e, None);
    observer_failed(&mut e, Observer::Ears, "listening failed");
    assert_eq!(e.as_deref(), Some("Listening: listening failed"));
    let mut other = Some("Serial error".to_string());
    observer_succeeded(&mut other, Observer::Eyes);
    assert_eq!(other.as_deref(), Some("Serial error"));
}
