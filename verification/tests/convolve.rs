use blur::convolve::{gather_samples, Sample};
use blur::kernel::distance_matrix;
use blur::raster::Raster;

fn numbered(width: u32, height: u32) -> Raster {
    let mut bytes = Vec::new();
    for y in 0..height {
        for x in 0..width {
            bytes.push((10 * y + x) as u8);
            bytes.push(100 + (10 * y + x) as u8);
            bytes.push(200 + (10 * y + x) as u8);
        }
    }
    Raster::from_raw(width, height, bytes).unwrap()
}

fn sample(distance: u32, n: u8) -> Sample {
    Sample { distance, red: n, green: 100 + n, blue: 200 + n }
}

#[test]
fn kernel_of_one_cell_samples_the_pixel_alone() {
    let img = numbered(4, 4);
    let m = distance_matrix(0);
    for y in 0..4u32 {
        for x in 0..4u32 {
            assert_eq!(gather_samples(x, y, &m, &img), vec![sample(0, (10 * y + x) as u8)]);
        }
    }
}

#[test]
fn raster_of_one_pixel_has_one_sample() {
    let img = Raster::from_raw(1, 1, vec![13, 200, 255]).unwrap();
    for radius in [1u8, 2, 3, 10, 255] {
        let m = distance_matrix(radius);
        assert_eq!(
            gather_samples(0, 0, &m, &img),
            vec![Sample { distance: 0, red: 13, green: 200, blue: 255 }]
        );
    }
}

#[test]
fn corner_pixel_skips_what_lies_outside() {
    let img = numbered(4, 4);
    let m = distance_matrix(1);
    assert_eq!(
        gather_samples(0, 0, &m, &img),
        vec![sample(0, 0), sample(1, 10), sample(1, 1), sample(2, 11)]
    );
    assert_eq!(
        gather_samples(3, 3, &m, &img),
        vec![sample(2, 22), sample(1, 32), sample(1, 23), sample(0, 33)]
    );
}

#[test]
fn edge_pixel_has_six_samples() {
    let img = numbered(4, 4);
    let m = distance_matrix(1);
    assert_eq!(
        gather_samples(0, 2, &m, &img),
        vec![
            sample(1, 10),
            sample(0, 20),
            sample(1, 30),
            sample(2, 11),
            sample(1, 21),
            sample(2, 31)
        ]
    );
}

#[test]
fn inner_pixel_has_every_cell_in_order() {
    let img = numbered(4, 4);
    let m = distance_matrix(1);
    assert_eq!(
        gather_samples(1, 2, &m, &img),
        vec![
            sample(2, 10),
            sample(1, 20),
            sample(2, 30),
            sample(1, 11),
            sample(0, 21),
            sample(1, 31),
            sample(2, 12),
            sample(1, 22),
            sample(2, 32)
        ]
    );
}

#[test]
fn kernel_wider_than_the_raster() {
    let img = numbered(2, 1);
    let m = distance_matrix(5);
    assert_eq!(gather_samples(0, 0, &m, &img), vec![sample(0, 0), sample(1, 1)]);
    assert_eq!(gather_samples(1, 0, &m, &img), vec![sample(1, 0), sample(0, 1)]);
}

#[test]
fn coordinate_far_outside_has_no_sample() {
    let img = numbered(2, 2);
    let m = distance_matrix(1);
    assert_eq!(gather_samples(10, 10, &m, &img), Vec::<Sample>::new());
    assert_eq!(gather_samples(2, 2, &m, &img), vec![sample(2, 11)]);
}

#[test]
fn matrix_that_is_no_kernel() {
    let img = numbered(3, 3);
    let mut m: grid::Grid<u32> = grid::Grid::new(2, 3);
    for i in 0..2usize {
        for k in 0..3usize {
            *m.get_mut(i, k).unwrap() = (10 * i + k) as u32;
        }
    }
    assert_eq!(
        gather_samples(1, 1, &m, &img),
        vec![
            sample(0, 0),
            sample(1, 10),
            sample(2, 20),
            sample(10, 1),
            sample(11, 11),
            sample(12, 21)
        ]
    );
    let empty: grid::Grid<u32> = grid::Grid::new(0, 0);
    assert_eq!(gather_samples(1, 1, &empty, &img), Vec::<Sample>::new());
}
