use scenegraph::animation::{
    apply_writes, locate_keyframe, ChannelCounts, ChannelRef, Mode, Playback, Property,
};

fn counts() -> Vec<ChannelCounts> {
    vec![
        ChannelCounts { translations: 1, rotations: 1, scales: 0 },
        ChannelCounts { translations: 0, rotations: 1, scales: 1 },
    ]
}

fn r(animation: usize, property: Property, index: usize) -> ChannelRef {
    ChannelRef { animation, property, index }
}

#[test]
fn new_playback_plays_nothing() {
    let p = Playback::new();
    assert_eq!(p.mode, Mode::Off);
    assert!(!p.paused);
    assert!(p.schedule(&counts()).is_empty());
}

#[test]
fn single_mode_schedules_one_animation() {
    let p = Playback { mode: Mode::Single(1), paused: false };
    assert_eq!(
        p.schedule(&counts()),
        vec![r(1, Property::Scale, 0), r(1, Property::Rotation, 0)]
    );
}

#[test]
fn all_mode_schedules_in_list_order() {
    let p = Playback { mode: Mode::All, paused: false };
    assert_eq!(
        p.schedule(&counts()),
        vec![
            r(0, Property::Translation, 0),
            r(0, Property::Rotation, 0),
            r(1, Property::Scale, 0),
            r(1, Property::Rotation, 0),
        ]
    );
}

// Both animations rotate node 5; under `All` the second one's result stays.
#[test]
fn all_mode_last_writer_wins() {
    let counts = vec![
        ChannelCounts { translations: 0, rotations: 1, scales: 0 },
        ChannelCounts { translations: 0, rotations: 1, scales: 0 },
    ];
    let targets = [[5usize], [5usize]];
    let results = [[(0.0f32, 0.0f32, 0.0f32, 1.0f32)], [(0.0, 0.7071, 0.0, 0.7071)]];
    let p = Playback { mode: Mode::All, paused: false };
    let writes: Vec<(usize, (f32, f32, f32, f32))> = p
        .schedule(&counts)
        .iter()
        .map(|c| (targets[c.animation][c.index], results[c.animation][c.index]))
        .collect();
    let mut rotations = vec![(0.0f32, 0.0f32, 0.0f32, 1.0f32); 6];
    apply_writes(&mut rotations, &writes);
    assert_eq!(rotations[5], (0.0, 0.7071, 0.0, 0.7071));
    assert_eq!(rotations[4], (0.0, 0.0, 0.0, 1.0));
}

#[test]
fn off_mode_changes_no_node() {
    let p = Playback { mode: Mode::Off, paused: false };
    let writes: Vec<(usize, f32)> = p.schedule(&counts()).iter().map(|c| (c.index, 9.0)).collect();
    let mut values = vec![1.0f32, 2.0, 3.0];
    apply_writes(&mut values, &writes);
    assert_eq!(values, vec![1.0, 2.0, 3.0]);
}

#[test]
fn apply_writes_in_order() {
    let mut values = vec![10, 20, 30];
    apply_writes(&mut values, &vec![(1, 21), (2, 31), (1, 22)]);
    assert_eq!(values, vec![10, 22, 31]);
}

#[test]
fn keyframe_location_first_bracket() {
    let keys = vec![0, 10, 20, 30];
    assert_eq!(locate_keyframe(&keys, 0), 0);
    assert_eq!(locate_keyframe(&keys, 9), 0);
    assert_eq!(locate_keyframe(&keys, 10), 1);
    assert_eq!(locate_keyframe(&keys, 25), 2);
    // at or past the last key no pair brackets the time
    assert_eq!(locate_keyframe(&keys, 30), 0);
    assert_eq!(locate_keyframe(&keys, 99), 0);
}

#[test]
fn keyframe_location_float_keys() {
    let times = [0.0f32, 0.5, 2.0];
    let keys: Vec<u32> = times.iter().map(|t| t.to_bits()).collect();
    assert_eq!(locate_keyframe(&keys, 1.0f32.to_bits()), 1);
    assert_eq!(locate_keyframe(&keys, 0.25f32.to_bits()), 0);
}
