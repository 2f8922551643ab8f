use pastebin::generate_id;

fn letter_position(id: &str) -> usize {
    let chars: Vec<char> = id.chars().collect();
    assert_eq!(chars.len(), 3);
    let digits = chars.iter().filter(|c| c.is_ascii_digit()).count();
    let letters = chars.iter().filter(|c| c.is_ascii_alphabetic()).count();
    assert_eq!(digits, 2, "{}", id);
    assert_eq!(letters, 1, "{}", id);
    chars.iter().position(|c| c.is_ascii_alphabetic()).unwrap()
}

#[test]
fn generated_id_shape() {
    for _ in 0..2000 {
        let id = generate_id();
        letter_position(&id);
    }
}

#[test]
fn generated_id_positions_roughly_uniform() {
    let mut counts = [0usize; 3];
    let mut lower = 0usize;
    let trials = 6000;
    for _ in 0..trials {
        let id = generate_id();
        counts[letter_position(&id)] += 1;
        if id.chars().any(|c| c.is_ascii_lowercase()) {
            lower += 1;
        }
    }
    for c in counts.iter() {
        assert!(*c > trials / 3 - 400 && *c < trials / 3 + 400, "{:?}", counts);
    }
    assert!(lower > trials / 2 - 500 && lower < trials / 2 + 500, "{}", lower);
}
