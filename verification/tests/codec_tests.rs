use rpeg::array2::Array2;
use rpeg::codec::{block_ops, compress, process_input, Rgb, RgbImage};

fn px(v: u16) -> Rgb {
    Rgb { red: v, green: v + 1, blue: v + 2 }
}

fn image(width: u32, height: u32, denominator: u16) -> RgbImage {
    let mut pixels = Vec::new();
    for i in 0..(width * height) {
        pixels.push(px((i % 1000) as u16));
    }
    RgbImage { pixels, width, height, denominator }
}

#[test]
fn test_process_input() {
    // a 79x75 image with denominator 255
    let (arr, denom) = process_input(image(79, 75, 255));
    let width = arr.width;
    let height = arr.height;
    let den = denom;

    assert_eq!(width, 78);
    assert_eq!(height, 74);
    assert_eq!(den, 255);
}

#[test]
fn test_dct_inverse() {}

#[test]
fn trimming_keeps_pixels_in_place() {
    let (arr, _) = process_input(image(5, 3, 255));
    assert_eq!((arr.width, arr.height), (4, 2));
    assert_eq!(arr.data.len(), 8);
    for row in 0..2usize {
        for col in 0..4usize {
            let expected = px((row * 5 + col) as u16);
            assert_eq!(*arr.get(col, row).unwrap(), expected);
        }
    }
}

#[test]
fn trimming_an_even_image_changes_nothing() {
    let raw = image(4, 6, 65535);
    let original = raw.pixels.clone();
    let (arr, denom) = process_input(raw);
    assert_eq!((arr.width, arr.height, denom), (4, 6, 65535));
    assert_eq!(arr.data, original);
}

#[test]
fn trimming_twice_is_trimming_once() {
    let (first, d1) = process_input(image(7, 9, 100));
    let again = RgbImage {
        pixels: first.data.clone(),
        width: first.width as u32,
        height: first.height as u32,
        denominator: d1,
    };
    let (second, d2) = process_input(again);
    assert_eq!((second.width, second.height, d2), (first.width, first.height, d1));
    assert_eq!(second.data, first.data);
}

#[test]
fn trimming_a_single_pixel_leaves_nothing() {
    let (arr, denom) = process_input(image(1, 1, 7));
    assert_eq!((arr.width, arr.height, denom), (0, 0, 7));
    assert!(arr.data.is_empty());
    let (empty, _) = process_input(image(0, 0, 1));
    assert_eq!((empty.width, empty.height), (0, 0));
}

#[test]
fn compress_trims_like_process_input() {
    let (a, d) = compress(image(3, 3, 255));
    let (b, e) = process_input(image(3, 3, 255));
    assert_eq!((a.width, a.height, d), (2, 2, 255));
    assert_eq!((a.data, d), (b.data, e));
}

fn grid(width: usize, height: usize) -> Array2<u32> {
    let values: Vec<u32> = (0..(width * height) as u32).collect();
    Array2::from_row_major(width, height, values).unwrap()
}

fn pack(a: u32, b: u32, c: u32, d: u32) -> u32 {
    a * 1_000_000 + b * 10_000 + c * 100 + d
}

#[test]
fn block_ops_combines_a_two_by_two_image() {
    // cells in row-major order: (0,0)=0 (1,0)=1 (0,1)=2 (1,1)=3
    let out = block_ops(&grid(2, 2), 99u32, pack);
    assert_eq!((out.width, out.height), (1, 1));
    // top-left, top-right, bottom-left, bottom-right
    assert_eq!(out.data, vec![pack(0, 1, 2, 3)]);
}

#[test]
fn block_ops_fills_every_block_cell() {
    let out = block_ops(&grid(4, 4), 7u32, pack);
    assert_eq!((out.width, out.height), (2, 2));
    assert_eq!(
        out.data,
        vec![pack(0, 1, 4, 5), pack(2, 3, 6, 7), pack(8, 9, 12, 13), pack(10, 11, 14, 15)]
    );
}

#[test]
fn block_ops_on_wide_and_tall_images() {
    let wide = block_ops(&grid(4, 2), 7u32, pack);
    assert_eq!((wide.width, wide.height), (2, 1));
    assert_eq!(wide.data, vec![pack(0, 1, 4, 5), pack(2, 3, 6, 7)]);

    let tall = block_ops(&grid(2, 4), 7u32, pack);
    assert_eq!((tall.width, tall.height), (1, 2));
    assert_eq!(tall.data, vec![pack(0, 1, 2, 3), pack(4, 5, 6, 7)]);

    let odd = block_ops(&grid(3, 3), 7u32, pack);
    assert_eq!((odd.width, odd.height), (1, 1));
    assert_eq!(odd.data, vec![pack(0, 1, 3, 4)]);
}

#[test]
fn block_ops_on_tiny_images() {
    let one = block_ops(&grid(1, 5), 7u32, pack);
    assert_eq!((one.width, one.height), (0, 2));
    assert!(one.data.is_empty());
}

#[test]
fn block_ops_ignores_a_trailing_odd_column_and_row() {
    let img = grid(5, 3);
    // the same image without its last column and last row
    let kept: Vec<u32> = vec![0, 1, 2, 3, 5, 6, 7, 8];
    let trimmed = Array2::from_row_major(4, 2, kept).unwrap();
    let a = block_ops(&img, 7u32, pack);
    let b = block_ops(&trimmed, 7u32, pack);
    assert_eq!((a.width, a.height), (b.width, b.height));
    assert_eq!(a.data, b.data);
    assert_eq!(a.data, vec![pack(0, 1, 5, 6), pack(2, 3, 7, 8)]);
}
