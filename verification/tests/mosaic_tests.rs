use portfolio::mosaic::{
    calculate_orientation_bias, Orientation, OrientationBias, OrientationTracker, SplitPreference,
};

#[test]
fn orientation_bias_counts_each_orientation() {
    let bias = calculate_orientation_bias(&vec![
        Orientation::Landscape,
        Orientation::Portrait,
        Orientation::Landscape,
        Orientation::Square,
        Orientation::Landscape,
    ]);
    assert_eq!(
        bias,
        OrientationBias {
            num_portrait: 1,
            num_landscape: 3,
            num_square: 1
        }
    );
    assert_eq!(calculate_orientation_bias(&vec![]), OrientationBias::default());
}

#[test]
fn split_preference_follows_the_largest_deficit() {
    let bias = OrientationBias {
        num_portrait: 1,
        num_landscape: 3,
        num_square: 1,
    };
    let mut tracker = OrientationTracker::new(&bias);
    assert_eq!(
        tracker.get_split_preference(),
        Some(SplitPreference {
            prefer_horizontal: true,
            deficit: 3,
            total_deficit: 5
        })
    );
    tracker.update_from_rectangles(&vec![Orientation::Landscape, Orientation::Landscape]);
    assert_eq!(tracker.current_landscape, 2);
    assert_eq!(tracker.get_split_preference(), None);

    tracker.update_from_rectangles(&vec![
        Orientation::Landscape,
        Orientation::Square,
        Orientation::Landscape,
    ]);
    assert_eq!(
        tracker.get_split_preference(),
        Some(SplitPreference {
            prefer_horizontal: false,
            deficit: 1,
            total_deficit: 1
        })
    );
    tracker.update_from_rectangles(&vec![Orientation::Portrait]);
    assert_eq!(tracker.get_split_preference(), None);
}
