use puzzle_suite::search::clock::read_clock;
use puzzle_suite::search::clock::Elapsed;
use puzzle_suite::search::digest::blend;
use puzzle_suite::search::digest::fold_bytes;
use puzzle_suite::search::frontier::Frontier;
use puzzle_suite::search::frontier::FrontierEntry;
use puzzle_suite::search::table::CostTable;
use puzzle_suite::puzzles::missionaries_cannibals::MissionariesCannibalsState;
use puzzle_suite::text::decimal_text;
use puzzle_suite::text::digit_text;
use puzzle_suite::text::framed;
use puzzle_suite::text::framed_pair;
use puzzle_suite::text::push_decimal;

fn entry(node: usize, g_cost: usize, h_cost: u32) -> FrontierEntry {
    FrontierEntry { node, g_cost, h_cost }
}

#[test]
fn total_cost_is_the_sum() {
    assert_eq!(entry(0, 3, 4).f_cost(), 7);
    assert_eq!(entry(0, 0, 0).f_cost(), 0);
    assert_eq!(
        entry(0, usize::MAX, u32::MAX).f_cost(),
        usize::MAX as u128 + u32::MAX as u128
    );
}

#[test]
fn smaller_total_goes_first() {
    assert!(entry(0, 1, 1).goes_before(&entry(1, 2, 1)));
    assert!(!entry(1, 2, 1).goes_before(&entry(0, 1, 1)));
}

#[test]
fn equal_totals_go_by_smaller_estimate() {
    assert!(entry(0, 4, 1).goes_before(&entry(1, 2, 3)));
    assert!(!entry(1, 2, 3).goes_before(&entry(0, 4, 1)));
    assert!(entry(0, 2, 3).goes_before(&entry(1, 2, 3)));
    assert!(entry(1, 2, 3).goes_before(&entry(0, 2, 3)));
}

#[test]
fn empty_frontier_serves_nothing() {
    let mut frontier = Frontier::new();
    assert!(frontier.is_empty());
    assert_eq!(frontier.len(), 0);
    assert!(frontier.pop().is_none());
    assert_eq!(frontier.len(), 0);
}

#[test]
fn frontier_serves_in_order() {
    let mut frontier = Frontier::new();
    let costs: [(usize, u32); 9] =
        [(5, 5), (1, 2), (7, 0), (0, 7), (2, 1), (9, 9), (3, 0), (0, 3), (4, 4)];
    for (node, (g, h)) in costs.iter().enumerate() {
        frontier.push(entry(node, *g, *h));
    }
    assert_eq!(frontier.len(), 9);
    assert!(!frontier.is_empty());
    let mut served = Vec::new();
    while let Some(e) = frontier.pop() {
        served.push((e.g_cost + e.h_cost as usize, e.h_cost));
    }
    assert_eq!(
        served,
        vec![(3, 0), (3, 1), (3, 2), (3, 3), (7, 0), (7, 7), (8, 4), (10, 5), (18, 9)]
    );
    assert!(frontier.is_empty());
}

#[test]
fn frontier_keeps_duplicates() {
    let mut frontier = Frontier::new();
    frontier.push(entry(1, 2, 2));
    frontier.push(entry(1, 2, 2));
    frontier.push(entry(2, 1, 1));
    assert_eq!(frontier.len(), 3);
    assert_eq!(frontier.pop().map(|e| e.node), Some(2));
    assert_eq!(frontier.pop().map(|e| e.node), Some(1));
    assert_eq!(frontier.pop().map(|e| e.node), Some(1));
    assert!(frontier.pop().is_none());
}

#[test]
fn frontier_survives_interleaved_use() {
    let mut frontier = Frontier::new();
    let mut expected: Vec<u32> = Vec::new();
    let mut seed: u32 = 12345;
    for round in 0..200 {
        seed = seed.wrapping_mul(1103515245).wrapping_add(12345);
        let h = (seed >> 16) % 50;
        frontier.push(entry(round, 0, h));
        expected.push(h);
        if round % 3 == 2 {
            expected.sort();
            let least = expected.remove(0);
            assert_eq!(frontier.pop().map(|e| e.h_cost), Some(least));
        }
    }
    expected.sort();
    for h in expected {
        assert_eq!(frontier.pop().map(|e| e.h_cost), Some(h));
    }
    assert!(frontier.is_empty());
}

#[test]
fn table_files_and_finds_states() {
    let mut table: CostTable<MissionariesCannibalsState> = CostTable::new();
    assert_eq!(table.len(), 0);
    let first = MissionariesCannibalsState { left_m: 3, left_c: 3, boat_left: true };
    let second = MissionariesCannibalsState { left_m: 3, left_c: 1, boat_left: false };
    assert_eq!(table.find(&first), None);
    let a = table.insert(first, None, 0);
    let b = table.insert(second, Some(a), 1);
    assert_eq!((a, b), (0, 1));
    assert_eq!(table.len(), 2);
    assert_eq!(table.find(&first), Some(0));
    assert_eq!(table.find(&second), Some(1));
    assert_eq!(
        table.find(&MissionariesCannibalsState { left_m: 3, left_c: 1, boat_left: true }),
        None
    );
    assert_eq!(*table.state(1), second);
    assert_eq!(table.parent(1), Some(0));
    assert_eq!(table.parent(0), None);
    assert_eq!(table.g_cost(1), 1);
}

#[test]
fn table_records_a_better_path() {
    let mut table: CostTable<MissionariesCannibalsState> = CostTable::new();
    let first = MissionariesCannibalsState { left_m: 3, left_c: 3, boat_left: true };
    let second = MissionariesCannibalsState { left_m: 2, left_c: 2, boat_left: false };
    let third = MissionariesCannibalsState { left_m: 3, left_c: 2, boat_left: true };
    let a = table.insert(first, None, 0);
    let b = table.insert(second, Some(a), 1);
    let c = table.insert(third, Some(b), 7);
    table.improve(c, Some(a), 2);
    assert_eq!(table.g_cost(c), 2);
    assert_eq!(table.parent(c), Some(a));
    assert_eq!(*table.state(c), third);
    assert_eq!(table.find(&third), Some(c));
    assert_eq!(table.len(), 3);
}

#[test]
fn blending_follows_its_formula() {
    assert_eq!(blend(0, 0), 0);
    assert_eq!(blend(0, 7), 7);
    assert_eq!(blend(1, 0), 131);
    assert_eq!(blend(2, 5), 267);
    assert_eq!(blend(0x0100_0000_0000_0000, 9), 9);
    assert_eq!(blend(0x0100_0000_0000_0001, 9), 140);
    assert_eq!(blend(u64::MAX, 255), 0x00FF_FFFF_FFFF_FFFFu64 * 131 + 255);
}

#[test]
fn folding_blends_byte_by_byte() {
    assert_eq!(fold_bytes(&[]), 0);
    assert_eq!(fold_bytes(&[5]), 5);
    assert_eq!(fold_bytes(&[1, 2]), 133);
    assert_eq!(fold_bytes(&[1, 2, 3]), 133 * 131 + 3);
    assert_ne!(fold_bytes(&[1, 2, 3]), fold_bytes(&[3, 2, 1]));
}

#[test]
fn elapsed_time_in_parts() {
    let span = Elapsed { secs: 12, nanos: 345_678_901 };
    assert_eq!(span.as_secs(), 12);
    assert_eq!(span.subsec_millis(), 345);
    assert!(span.exceeds(12));
    assert!(span.exceeds(3));
    assert!(!span.exceeds(13));
    assert!(!Elapsed { secs: 3600, nanos: 0 }.exceeds(3600));
    assert!(Elapsed { secs: 3600, nanos: 1 }.exceeds(3600));
    assert!(!Elapsed { secs: 3599, nanos: 999_999_999 }.exceeds(3600));
    assert!(Elapsed { secs: 3601, nanos: 0 }.exceeds(3600));
    assert_eq!(Elapsed::zero(), Elapsed { secs: 0, nanos: 0 });
    assert_eq!(Elapsed { secs: 0, nanos: 999_999 }.subsec_millis(), 0);
    assert_eq!(Elapsed { secs: 0, nanos: 999_999_999 }.subsec_millis(), 999);
}

#[test]
fn clock_readings_are_well_formed() {
    let since = std::time::Instant::now();
    let first = read_clock(&since);
    let mut busy = 0u64;
    for i in 0..2_000_000u64 {
        busy = busy.wrapping_add(i * i);
    }
    assert_ne!(busy, 1);
    let second = read_clock(&since);
    assert!(first.nanos < 1_000_000_000);
    assert!(second.nanos < 1_000_000_000);
    assert!((second.secs, second.nanos) >= (first.secs, first.nanos));
    assert!(second.secs < 600);
}

#[test]
fn numbers_in_decimal() {
    assert_eq!(decimal_text(0), "0");
    assert_eq!(decimal_text(7), "7");
    assert_eq!(decimal_text(10), "10");
    assert_eq!(decimal_text(255), "255");
    assert_eq!(decimal_text(1_000_000), "1000000");
    assert_eq!(decimal_text(u64::MAX), "18446744073709551615");
    for digit in 0..10u8 {
        assert_eq!(digit_text(digit), digit.to_string());
    }
}

#[test]
fn numbers_set_into_text() {
    assert_eq!(framed("Cell ", 4, " is already occupied."), "Cell 4 is already occupied.");
    assert_eq!(framed("", 0, ""), "0");
    assert_eq!(framed_pair("Step ", 3, " / ", 11, ""), "Step 3 / 11");
    let mut text = String::from("n=");
    push_decimal(&mut text, 42);
    push_decimal(&mut text, 0);
    assert_eq!(text, "n=420");
}
