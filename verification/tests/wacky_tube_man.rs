use netpong::wacky_tube_man::{Chain, Orientation, WackyTubeMan};

#[test]
fn a_new_figure_stands_at_the_origin() {
    let man = WackyTubeMan::new(40_000, 6_000);
    assert_eq!(man, WackyTubeMan { time: 0, x: 0, y: 0, height: 40_000, thickness: 6_000 });
}

#[test]
fn the_clock_of_the_figure_runs_and_stops_at_the_largest_count() {
    let mut man = WackyTubeMan::new(40_000, 6_000);
    man.update(16_666);
    man.update(16_666);
    assert_eq!(man.time, 33_332);
    man.time = u64::MAX - 1;
    man.update(5);
    assert_eq!(man.time, u64::MAX);
    assert_eq!((man.height, man.thickness), (40_000, 6_000));
}

#[test]
fn the_figure_goes_where_it_is_put() {
    let mut man = WackyTubeMan::new(40_000, 6_000);
    man.set_position(40_000, 580_000);
    assert_eq!(man, WackyTubeMan { time: 0, x: 40_000, y: 580_000, height: 40_000, thickness: 6_000 });
}

#[test]
fn the_limbs_are_parts_of_the_height() {
    let man = WackyTubeMan::new(40_000, 6_000);
    assert_eq!(man.body().lengths, vec![10_000, 10_000, 6_000, 4_000, 10_000]);
    assert_eq!(man.arm().lengths, vec![5_000, 5_000, 5_000, 5_000]);
    let man = WackyTubeMan::new(39, 1);
    assert_eq!(man.body().lengths, vec![9, 9, 5, 3, 9]);
    assert_eq!(man.arm().lengths, vec![4, 4, 4, 4]);
}

#[test]
fn a_chain_keeps_its_lengths() {
    let chain = Chain::new(vec![1, 2, 3]);
    assert_eq!(chain.lengths, vec![1, 2, 3]);
}

#[test]
fn a_straight_chain_runs_along_its_first_direction() {
    let chain = Chain::new(vec![10_000, 20_000, 30_000]);
    let start = Orientation { x: 100, y: 200, phi: 0 };
    let posed = chain.solve(&start, &vec![90_000, 0, 0]);
    assert_eq!(
        posed,
        vec![
            (Orientation { x: 100, y: 200, phi: 90_000 }, 10_000),
            (Orientation { x: 100, y: 10_200, phi: 90_000 }, 20_000),
            (Orientation { x: 100, y: 30_200, phi: 90_000 }, 30_000),
        ]
    );
}

#[test]
fn each_segment_turns_against_the_one_before() {
    let chain = Chain::new(vec![10_000, 10_000, 10_000, 10_000]);
    let start = Orientation { x: 0, y: 0, phi: 270_000 };
    let posed = chain.solve(&start, &vec![90_000, 90_000, 90_000, -30_000]);
    assert_eq!(
        posed,
        vec![
            (Orientation { x: 0, y: 0, phi: 0 }, 10_000),
            (Orientation { x: 10_000, y: 0, phi: 90_000 }, 10_000),
            (Orientation { x: 10_000, y: 10_000, phi: 180_000 }, 10_000),
            (Orientation { x: 0, y: 10_000, phi: 150_000 }, 10_000),
        ]
    );
}

#[test]
fn a_chain_is_posed_as_far_as_angles_and_lengths_both_go() {
    let chain = Chain::new(vec![10_000, 20_000, 30_000]);
    let start = Orientation { x: 0, y: 0, phi: 0 };
    assert_eq!(chain.solve(&start, &vec![]).len(), 0);
    assert_eq!(chain.solve(&start, &vec![0]).len(), 1);
    assert_eq!(chain.solve(&start, &vec![0, 0, 0, 0, 0]).len(), 3);
    assert_eq!(Chain::new(vec![]).solve(&start, &vec![0, 0]).len(), 0);
}

#[test]
fn a_slanted_segment_is_projected_on_both_axes() {
    let chain = Chain::new(vec![10_000, 10_000]);
    let start = Orientation { x: 0, y: 0, phi: 0 };
    let posed = chain.solve(&start, &vec![60_000, 150_000]);
    assert_eq!(posed[1], (Orientation { x: 5_000, y: 8_660, phi: 210_000 }, 10_000));
}
