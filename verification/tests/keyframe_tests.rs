use aether::keyframes::{EasingFunction, Keyframe, KeyframeTrack};

fn kf(t: u64, v: i32) -> Keyframe<i32> {
    Keyframe { time_ms: t, value: v, easing: EasingFunction::Linear }
}

#[test]
fn keyframes_stay_in_time_order() {
    let mut track: KeyframeTrack<i32> = KeyframeTrack::new();
    track.insert_keyframe(kf(1000, 10));
    track.insert_keyframe(kf(0, 0));
    track.insert_keyframe(kf(500, 5));
    let times: Vec<u64> = track.keyframes.iter().map(|k| k.time_ms).collect();
    assert_eq!(times, vec![0, 500, 1000]);
}

#[test]
fn keyframe_at_same_time_is_replaced() {
    let mut track: KeyframeTrack<i32> = KeyframeTrack::new();
    track.insert_keyframe(kf(0, 0));
    track.insert_keyframe(kf(1000, 10));
    track.insert_keyframe(Keyframe { time_ms: 1000, value: 20, easing: EasingFunction::EaseIn });
    assert_eq!(track.keyframes.len(), 2);
    assert_eq!(track.keyframes[1].value, 20);
    assert_eq!(track.keyframes[1].easing, EasingFunction::EaseIn);
}

#[test]
fn removing_keyframes() {
    let mut track: KeyframeTrack<i32> = KeyframeTrack::new();
    track.insert_keyframe(kf(0, 0));
    track.insert_keyframe(kf(1000, 10));
    assert!(track.remove_keyframe(0));
    assert!(!track.remove_keyframe(0));
    assert_eq!(track.keyframes.len(), 1);
    assert_eq!(track.keyframes[0].time_ms, 1000);
}

#[test]
fn unsorted_track_is_sorted_stably_on_insert() {
    let mut track: KeyframeTrack<i32> = KeyframeTrack { keyframes: vec![kf(900, 1), kf(100, 2), kf(900, 3)] };
    track.insert_keyframe(kf(500, 4));
    let pairs: Vec<(u64, i32)> = track.keyframes.iter().map(|k| (k.time_ms, k.value)).collect();
    assert_eq!(pairs, vec![(100, 2), (500, 4), (900, 1), (900, 3)]);
}
