use rascii_art::animator::Animator;
use rascii_art::cell::Cell;
use rascii_art::effect::Effect;
use rascii_art::orders::reversed;
use rascii_art::play::Measurements;
use rascii_art::script::{wait_for, Step};

fn cell(ch: &str) -> Cell {
    Cell {
        ch: ch.to_string(),
        color_pre: String::new(),
        color_suf: String::new(),
    }
}

fn grid(rows: usize, cols: usize) -> Vec<Vec<Cell>> {
    (0..rows).map(|_| (0..cols).map(|_| cell("#")).collect()).collect()
}

fn animator(rows: usize, cols: usize, effect: Effect, nanos: u64) -> Animator {
    Animator::new(grid(rows, cols), effect, nanos)
}

fn no_measurements(batch_frames: usize) -> Measurements {
    Measurements {
        batch_frames,
        view_h: 0,
        view_w: 0,
        pan: Vec::new(),
        whirl_keys: Vec::new(),
    }
}

fn draws(ps: &[(usize, usize)]) -> Vec<Step> {
    ps.iter().map(|&(r, c)| Step::DrawCell(r, c)).collect()
}

fn full(rows: usize, cols: usize) -> Vec<Step> {
    let mut v = Vec::new();
    for r in 0..rows {
        for c in 0..cols {
            v.push(Step::DrawCell(r, c));
        }
    }
    v.push(Step::Flush);
    v
}

#[test]
fn effect_names_parse() {
    assert_eq!(Effect::from_str("dissolve-in"), Some(Effect::DissolveIn));
    assert_eq!(Effect::from_str("dissolve-out"), Some(Effect::DissolveOut));
    assert_eq!(Effect::from_str("swirl-in"), Some(Effect::SwirlIn));
    assert_eq!(Effect::from_str("swirl-out"), Some(Effect::SwirlOut));
    assert_eq!(Effect::from_str("whirl-in"), Some(Effect::WhirlIn));
    assert_eq!(Effect::from_str("whirl-out"), Some(Effect::WhirlOut));
    assert_eq!(Effect::from_str("ken-burns"), Some(Effect::KenBurns));
}

#[test]
fn unknown_effect_names_are_refused() {
    assert_eq!(Effect::from_str(""), None);
    assert_eq!(Effect::from_str("Dissolve-In"), None);
    assert_eq!(Effect::from_str("swirl"), None);
    assert_eq!(Effect::from_str("ken-burns "), None);
    assert_eq!(Effect::from_str("fade"), None);
}

#[test]
fn all_positions_follow_each_row() {
    let g = vec![vec![cell("a"), cell("b")], vec![cell("c")], vec![], vec![cell("d")]];
    let a = Animator::new(g, Effect::DissolveIn, 0);
    assert_eq!(a.all_positions(), vec![(0, 0), (0, 1), (1, 0), (3, 0)]);
    let empty = Animator::new(Vec::new(), Effect::DissolveIn, 0);
    assert!(empty.all_positions().is_empty());
}

#[test]
fn spiral_of_three_by_three() {
    let a = animator(3, 3, Effect::SwirlIn, 0);
    assert_eq!(
        a.spiral_positions(),
        vec![(0, 0), (0, 1), (0, 2), (1, 2), (2, 2), (2, 1), (2, 0), (1, 0), (1, 1)]
    );
}

#[test]
fn spiral_of_thin_and_empty_rectangles() {
    assert_eq!(animator(1, 4, Effect::SwirlIn, 0).spiral_positions(), vec![(0, 0), (0, 1), (0, 2), (0, 3)]);
    assert_eq!(animator(3, 1, Effect::SwirlIn, 0).spiral_positions(), vec![(0, 0), (1, 0), (2, 0)]);
    assert_eq!(
        animator(2, 3, Effect::SwirlIn, 0).spiral_positions(),
        vec![(0, 0), (0, 1), (0, 2), (1, 2), (1, 1), (1, 0)]
    );
    assert!(animator(0, 3, Effect::SwirlIn, 0).spiral_positions().is_empty());
    assert!(animator(3, 0, Effect::SwirlIn, 0).spiral_positions().is_empty());
}

#[test]
fn spiral_visits_every_cell_once() {
    for rows in 0..7 {
        for cols in 0..7 {
            let mut ps = animator(rows, cols, Effect::SwirlIn, 0).spiral_positions();
            assert_eq!(ps.len(), rows * cols);
            ps.sort();
            let mut expected = Vec::new();
            for r in 0..rows {
                for c in 0..cols {
                    expected.push((r, c));
                }
            }
            assert_eq!(ps, expected);
        }
    }
}

#[test]
fn spiral_uses_the_first_row_width() {
    let g = vec![vec![cell("a"), cell("b")], vec![cell("c"), cell("d"), cell("e")]];
    let a = Animator::new(g, Effect::SwirlIn, 0);
    assert_eq!(a.spiral_positions(), vec![(0, 0), (0, 1), (1, 1), (1, 0)]);
}

#[test]
fn whirl_sorts_by_key_keeping_ties_in_row_order() {
    let a = animator(2, 2, Effect::WhirlOut, 0);
    let keys = vec![vec![5, 1], vec![1, 0]];
    assert_eq!(a.whirl_positions(&keys), vec![(1, 1), (0, 1), (1, 0), (0, 0)]);
    let ties = vec![vec![7, 7], vec![7, 7]];
    assert_eq!(a.whirl_positions(&ties), vec![(0, 0), (0, 1), (1, 0), (1, 1)]);
    let none = animator(0, 0, Effect::WhirlOut, 0);
    assert!(none.whirl_positions(&Vec::new()).is_empty());
}

#[test]
fn shuffle_keeps_every_cell_once() {
    let a = animator(4, 5, Effect::DissolveIn, 0);
    let mut ps = a.shuffled_positions();
    ps.sort();
    assert_eq!(ps, a.all_positions());
}

#[test]
fn reversed_reverses() {
    assert_eq!(reversed(&vec![(0, 0), (0, 1), (2, 3)]), vec![(2, 3), (0, 1), (0, 0)]);
    assert!(reversed(&Vec::new()).is_empty());
}

#[test]
fn batched_reveal_splits_cells_into_paced_frames() {
    let a = animator(1, 5, Effect::SwirlIn, 1000);
    let ps = vec![(0, 4), (0, 3), (0, 2), (0, 1), (0, 0)];
    let steps = a.play_batched(&ps, true, 2);
    let mut expected = vec![Step::StartClock];
    expected.extend(draws(&ps[0..3]));
    expected.push(Step::Flush);
    expected.push(Step::SleepUntil(500));
    expected.extend(draws(&ps[3..5]));
    expected.push(Step::Flush);
    expected.push(Step::SleepUntil(1000));
    expected.extend(full(1, 5));
    assert_eq!(steps, expected);
}

#[test]
fn batched_clear_has_no_final_draw() {
    let a = animator(1, 2, Effect::DissolveOut, 90);
    let ps = vec![(0, 1), (0, 0)];
    let steps = a.play_batched(&ps, false, 0);
    assert_eq!(
        steps,
        vec![
            Step::StartClock,
            Step::ClearCell(0, 1),
            Step::ClearCell(0, 0),
            Step::Flush,
            Step::SleepUntil(90),
        ]
    );
    assert!(a.play_batched(&Vec::new(), true, 3).is_empty());
}

#[test]
fn batched_frames_round_cells_up_and_time_down() {
    let a = animator(1, 7, Effect::SwirlIn, 10);
    let ps: Vec<(usize, usize)> = (0..7).map(|c| (0, c)).collect();
    let steps = a.play_batched(&ps, false, 3);
    let waits: Vec<u64> = steps
        .iter()
        .filter_map(|s| match s {
            Step::SleepUntil(t) => Some(*t),
            _ => None,
        })
        .collect();
    assert_eq!(waits, vec![3, 6, 9]);
    let flushes = steps.iter().filter(|s| **s == Step::Flush).count();
    assert_eq!(flushes, 3);
}

#[test]
fn swirl_out_plays_the_spiral_backwards() {
    let a = animator(2, 2, Effect::SwirlOut, 100);
    let steps = a.play(&no_measurements(1));
    let mut expected = vec![Step::HideCursorAndClear, Step::Flush, Step::StartClock];
    expected.extend(draws(&[(1, 0), (1, 1), (0, 1), (0, 0)]));
    expected.push(Step::Flush);
    expected.push(Step::SleepUntil(100));
    expected.extend(full(2, 2));
    expected.push(Step::ShowCursor);
    expected.push(Step::Flush);
    assert_eq!(steps, expected);
}

#[test]
fn whirl_in_plays_the_whirl_backwards() {
    let a = animator(1, 3, Effect::WhirlIn, 30);
    let m = Measurements {
        batch_frames: 3,
        view_h: 0,
        view_w: 0,
        pan: Vec::new(),
        whirl_keys: vec![vec![2, 0, 1]],
    };
    let steps = a.play_effect(&m, &Vec::new());
    let mut expected = vec![Step::StartClock];
    for (i, c) in [0usize, 2, 1].iter().enumerate() {
        expected.push(Step::DrawCell(0, *c));
        expected.push(Step::Flush);
        expected.push(Step::SleepUntil(10 * (i as u64 + 1)));
    }
    expected.extend(full(1, 3));
    assert_eq!(steps, expected);
}

#[test]
fn dissolve_out_draws_clears_and_draws_again() {
    let a = animator(1, 2, Effect::DissolveOut, 40);
    let order = vec![(0, 1), (0, 0)];
    let steps = a.play_effect(&no_measurements(1), &order);
    let mut expected = full(1, 2);
    expected.push(Step::Sleep(500_000_000));
    expected.extend(vec![
        Step::StartClock,
        Step::ClearCell(0, 1),
        Step::ClearCell(0, 0),
        Step::Flush,
        Step::SleepUntil(40),
    ]);
    expected.push(Step::Sleep(300_000_000));
    expected.extend(full(1, 2));
    assert_eq!(steps, expected);
}

#[test]
fn dissolve_in_reveals_every_cell() {
    let a = animator(3, 3, Effect::DissolveIn, 1000);
    let steps = a.play(&no_measurements(4));
    assert_eq!(steps[0], Step::HideCursorAndClear);
    assert_eq!(steps[steps.len() - 2], Step::ShowCursor);
    let mut drawn: Vec<(usize, usize)> = Vec::new();
    for s in &steps[3..] {
        match s {
            Step::DrawCell(r, c) => drawn.push((*r, *c)),
            Step::StartClock | Step::Flush | Step::SleepUntil(_) => {}
            _ => break,
        }
        if drawn.len() == 9 {
            break;
        }
    }
    drawn.sort();
    assert_eq!(drawn, a.all_positions());
}

#[test]
fn ken_burns_shows_small_grids_whole() {
    let one_row = animator(1, 4, Effect::KenBurns, 77);
    let mut expected = full(1, 4);
    expected.push(Step::Sleep(77));
    assert_eq!(one_row.play_ken_burns(&no_measurements(0)), expected);

    let covered = animator(3, 3, Effect::KenBurns, 5);
    let m = Measurements { batch_frames: 0, view_h: 3, view_w: 3, pan: Vec::new(), whirl_keys: Vec::new() };
    let mut expected = full(3, 3);
    expected.push(Step::Sleep(5));
    assert_eq!(covered.play_ken_burns(&m), expected);

    assert!(animator(0, 0, Effect::KenBurns, 5).play_ken_burns(&no_measurements(0)).is_empty());
}

#[test]
fn ken_burns_pans_a_viewport() {
    let a = animator(4, 4, Effect::KenBurns, 20);
    let m = Measurements {
        batch_frames: 0,
        view_h: 3,
        view_w: 3,
        pan: vec![(0, 0), (1, 1)],
        whirl_keys: Vec::new(),
    };
    let steps = a.play_ken_burns(&m);
    let mut expected = vec![Step::StartClock];
    for (f, (y, x)) in [(0usize, 0usize), (1, 1)].iter().enumerate() {
        expected.push(Step::Home);
        for r in 0..3 {
            for c in 0..3 {
                expected.push(Step::PutCell(y + r, x + c));
            }
            expected.push(Step::ClearLineEnd);
            if r < 2 {
                expected.push(Step::NewLine);
            }
        }
        expected.push(Step::Flush);
        expected.push(Step::SleepUntil(10 * (f as u64 + 1)));
    }
    expected.push(Step::ClearScreen);
    expected.extend(full(4, 4));
    assert_eq!(steps, expected);
}

#[test]
fn waits_only_when_early() {
    assert_eq!(wait_for(100, 30), Some(70));
    assert_eq!(wait_for(100, 100), None);
    assert_eq!(wait_for(100, 250), None);
    assert_eq!(wait_for(0, 0), None);
}

#[test]
fn shuffle_moves_cells() {
    let a = animator(5, 5, Effect::DissolveIn, 0);
    let in_order = a.all_positions();
    let moved = (0..3).any(|_| a.shuffled_positions() != in_order);
    assert!(moved);
}
