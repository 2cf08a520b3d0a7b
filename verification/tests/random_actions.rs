use rand_pcg::Mcg128Xsl64;

use taxi::actions::Actions;

fn find_action(desired_action: Actions, max_iterations: u32, seed: u128) -> bool {
    let mut rng = Mcg128Xsl64::new(seed);

    let mut iterations_remaining = max_iterations;
    loop {
        if iterations_remaining == 0 {
            break false;
        }

        iterations_remaining -= 1;

        let action = Actions::random(&mut rng);

        if action == desired_action {
            break true;
        }
    }
}

#[test]
fn random_action_north() {
    let found_action = find_action(Actions::North, 500, 11);
    assert!(found_action);
}

#[test]
fn random_action_south() {
    let found_action = find_action(Actions::South, 500, 12);
    assert!(found_action);
}

#[test]
fn random_action_east() {
    let found_action = find_action(Actions::East, 500, 13);
    assert!(found_action);
}

#[test]
fn random_action_west() {
    let found_action = find_action(Actions::West, 500, 14);
    assert!(found_action);
}

#[test]
fn random_action_pickup() {
    let found_action = find_action(Actions::PickUp, 500, 15);
    assert!(found_action);
}

#[test]
fn random_action_dropoff() {
    let found_action = find_action(Actions::DropOff, 500, 16);
    assert!(found_action);
}

#[test]
fn distribution() {
    let max_iterations = 1000000;

    let mut counts = vec![0.0f64; Actions::NUM_ELEMENTS];

    let mut rng = Mcg128Xsl64::new(17);
    for _ in 0..max_iterations {
        let action = Actions::random(&mut rng);

        counts[action.to_index()] += 1.0;
    }

    // chi-squared should not exceed this for 95% confidence.
    let p_05 = 11.07;

    let expected_count = (max_iterations as f64) / (counts.len() as f64);

    let mut chi_sqr = 0.0f64;
    for count in &counts {
        let delta = count - expected_count;
        chi_sqr += (delta * delta) / expected_count;
    }

    println!("chi-squared = {}, 95% confidence = {}", chi_sqr, p_05);

    assert!(chi_sqr < p_05);
}
