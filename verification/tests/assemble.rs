use blur::assemble::{Arrival, Collector, Progress};
use blur::raster::Raster;

fn arrival(x: u32, y: u32, n: u8) -> Arrival {
    Arrival { x, y, color: (n, n, n) }
}

#[test]
fn collector_starts_black_and_empty() {
    let shape = Raster::from_raw(2, 2, vec![7; 12]).unwrap();
    let c = Collector::new(&shape);
    assert_eq!(c.received(), 0);
    assert_eq!(c.expected(), 4);
    assert!(!c.is_complete());
    let out = c.into_raster();
    assert_eq!(out.width(), 2);
    assert_eq!(out.height(), 2);
    assert_eq!(out.into_raw(), vec![0; 12]);
}

#[test]
fn collector_reports_each_tenth_once() {
    let shape = Raster::new(10, 10).unwrap();
    let mut c = Collector::new(&shape);
    let mut reports = Vec::new();
    for n in 0..100u32 {
        let progress = c.accept(arrival(n % 10, n / 10, 1));
        match progress {
            Progress::Milestone(p) => reports.push((n + 1, p)),
            Progress::Complete => assert_eq!(n, 99),
            Progress::Stored => assert!((n + 1) % 10 != 0),
            Progress::Rejected => panic!("rejected"),
        }
    }
    assert_eq!(
        reports,
        vec![
            (10, 10),
            (20, 20),
            (30, 30),
            (40, 40),
            (50, 50),
            (60, 60),
            (70, 70),
            (80, 80),
            (90, 90)
        ]
    );
    assert!(c.is_complete());
}

#[test]
fn collector_reports_a_tenth_on_its_first_arrival_only() {
    let shape = Raster::new(50, 20).unwrap();
    let mut c = Collector::new(&shape);
    let mut reports = Vec::new();
    for n in 0..1000u32 {
        if let Progress::Milestone(p) = c.accept(arrival(n % 50, n / 50, 1)) {
            reports.push((c.received(), p));
        }
    }
    assert_eq!(
        reports,
        vec![
            (100, 10),
            (200, 20),
            (300, 30),
            (400, 40),
            (500, 50),
            (600, 60),
            (700, 70),
            (800, 80),
            (900, 90)
        ]
    );
}

#[test]
fn collector_reports_a_tenth_that_is_crossed_between_two_counts() {
    let shape = Raster::new(15, 1).unwrap();
    let mut c = Collector::new(&shape);
    let mut seen = Vec::new();
    for x in 0..15u32 {
        seen.push(c.accept(arrival(x, 0, 1)));
    }
    assert_eq!(
        seen,
        vec![
            Progress::Stored,
            Progress::Milestone(10),
            Progress::Milestone(20),
            Progress::Stored,
            Progress::Milestone(30),
            Progress::Milestone(40),
            Progress::Stored,
            Progress::Milestone(50),
            Progress::Milestone(60),
            Progress::Stored,
            Progress::Milestone(70),
            Progress::Milestone(80),
            Progress::Stored,
            Progress::Milestone(90),
            Progress::Complete
        ]
    );
}

#[test]
fn collector_of_three_pixels_reports_the_highest_tenth_reached() {
    let shape = Raster::new(3, 1).unwrap();
    let mut c = Collector::new(&shape);
    assert_eq!(c.accept(arrival(2, 0, 3)), Progress::Milestone(30));
    assert_eq!(c.accept(arrival(0, 0, 1)), Progress::Milestone(60));
    assert_eq!(c.accept(arrival(1, 0, 2)), Progress::Complete);
    assert_eq!(c.into_raster().into_raw(), vec![1, 1, 1, 2, 2, 2, 3, 3, 3]);
}

#[test]
fn collector_never_reports_a_tenth_twice() {
    for (width, height) in [(7u32, 3u32), (11, 11), (1, 99), (33, 4), (101, 1)] {
        let shape = Raster::new(width, height).unwrap();
        let mut c = Collector::new(&shape);
        let mut last = 0u8;
        for n in 0..width * height {
            if let Progress::Milestone(p) = c.accept(arrival(n % width, n / width, 1)) {
                assert!(p > last && p < 100 && p % 10 == 0);
                assert!(c.received() * 100 / c.expected() >= p as u64);
                assert!((c.received() - 1) * 100 / c.expected() < p as u64);
                last = p;
            }
        }
        assert_eq!(last, 90);
        assert!(c.is_complete());
    }
}

#[test]
fn collector_of_one_pixel_completes_at_once() {
    let shape = Raster::new(1, 1).unwrap();
    let mut c = Collector::new(&shape);
    assert_eq!(c.accept(Arrival { x: 0, y: 0, color: (4, 5, 6) }), Progress::Complete);
    assert!(c.is_complete());
    assert_eq!(c.into_raster().into_raw(), vec![4, 5, 6]);
}

#[test]
fn collector_rejects_a_coordinate_outside() {
    let shape = Raster::new(2, 2).unwrap();
    let mut c = Collector::new(&shape);
    assert_eq!(c.accept(arrival(2, 0, 9)), Progress::Rejected);
    assert_eq!(c.accept(arrival(0, 2, 9)), Progress::Rejected);
    assert_eq!(c.accept(arrival(u32::MAX, u32::MAX, 9)), Progress::Rejected);
    assert_eq!(c.received(), 0);
    assert_eq!(c.into_raster().into_raw(), vec![0; 12]);
}

#[test]
fn collector_rejects_what_comes_after_the_last() {
    let shape = Raster::new(2, 1).unwrap();
    let mut c = Collector::new(&shape);
    assert_eq!(c.accept(arrival(0, 0, 1)), Progress::Milestone(50));
    assert_eq!(c.accept(arrival(1, 0, 2)), Progress::Complete);
    assert_eq!(c.accept(arrival(0, 0, 3)), Progress::Rejected);
    assert_eq!(c.received(), 2);
    assert_eq!(c.into_raster().into_raw(), vec![1, 1, 1, 2, 2, 2]);
}

#[test]
fn collector_of_an_empty_raster_expects_nothing() {
    let shape = Raster::new(0, 5).unwrap();
    let mut c = Collector::new(&shape);
    assert_eq!(c.expected(), 0);
    assert!(c.is_complete());
    assert_eq!(c.accept(arrival(0, 0, 1)), Progress::Rejected);
}

#[test]
fn collector_counts_a_coordinate_that_comes_twice() {
    let shape = Raster::new(2, 1).unwrap();
    let mut c = Collector::new(&shape);
    assert_eq!(c.accept(arrival(0, 0, 1)), Progress::Milestone(50));
    assert_eq!(c.accept(arrival(0, 0, 8)), Progress::Complete);
    assert_eq!(c.into_raster().into_raw(), vec![8, 8, 8, 0, 0, 0]);
}

#[test]
fn order_of_arrival_does_not_matter() {
    let shape = Raster::new(3, 2).unwrap();
    let arrivals: Vec<Arrival> =
        (0..6u32).map(|n| arrival(n % 3, n / 3, (n + 1) as u8)).collect();
    let orders: [[usize; 6]; 4] =
        [[0, 1, 2, 3, 4, 5], [5, 4, 3, 2, 1, 0], [3, 0, 5, 1, 4, 2], [2, 4, 0, 5, 3, 1]];
    for order in orders {
        let mut c = Collector::new(&shape);
        for i in order {
            assert!(c.accept(arrivals[i]) != Progress::Rejected);
        }
        assert!(c.is_complete());
        assert_eq!(
            c.into_raster().into_raw(),
            vec![1, 1, 1, 2, 2, 2, 3, 3, 3, 4, 4, 4, 5, 5, 5, 6, 6, 6]
        );
    }
}
