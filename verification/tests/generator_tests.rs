use brutifi::generator::{render_digits, ParallelPasswordGenerator};

#[test]
fn test_generator_basic() {
    let gen = ParallelPasswordGenerator::new(2, 4);
    // Enumeration starts at 0 to cover zero-prefixed passphrases, so a
    // 2-digit space holds 100 candidates (00 through 99).
    assert_eq!(gen.total_combinations(), 100);
    assert_eq!(gen.length, 2);
}

#[test]
fn test_generator_batches() {
    let gen = ParallelPasswordGenerator::new(2, 4);
    let mut batches: Vec<Vec<Vec<u8>>> = Vec::new();
    let mut b: u64 = 0;
    while b < gen.batch_count() {
        batches.push(gen.batch(b));
        b += 1;
    }

    assert!(!batches.is_empty());

    // The first batch starts at the zero-padded origin of the space.
    assert_eq!(batches[0][0], b"00".to_vec());
}

#[test]
fn test_generator_format() {
    let gen = ParallelPasswordGenerator::new(3, 4);
    let first_batch = gen.batch(0);

    assert_eq!(first_batch[0], b"000".to_vec());
    assert_eq!(first_batch[1], b"001".to_vec());
    assert_eq!(first_batch[2], b"002".to_vec());
}

#[test]
fn test_generator_covers_space() {
    let gen = ParallelPasswordGenerator::new(2, 1);
    let mut all: Vec<Vec<u8>> = Vec::new();
    let mut b: u64 = 0;
    while b < gen.batch_count() {
        all.extend(gen.batch(b));
        b += 1;
    }
    assert_eq!(all.len(), 100);
    assert_eq!(all[0], b"00".to_vec());
    assert_eq!(all[42], b"42".to_vec());
    assert_eq!(all[99], b"99".to_vec());
}

#[test]
fn test_render_digits_padding() {
    assert_eq!(render_digits(0, 8), b"00000000".to_vec());
    assert_eq!(render_digits(12345678, 8), b"12345678".to_vec());
    assert_eq!(render_digits(7, 3), b"007".to_vec());
    assert_eq!(render_digits(9_999_999_999_999_999_999, 19), b"9999999999999999999".to_vec());
}
