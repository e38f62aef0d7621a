use gc_calculator::{calculate_gc_content, GcResult};

/// The records of `text`, read with the line and trimming functions of the
/// standard library.
fn read_with_std(text: &str) -> Vec<GcResult> {
    let mut results = Vec::new();
    let mut current: Option<(String, String)> = None;
    for line in text.lines() {
        let line = line.trim();
        if let Some(header) = line.strip_prefix('>') {
            results.extend(current.take().map(summary));
            let name = header.trim();
            if !name.is_empty() {
                current = Some((name.to_string(), String::new()));
            }
        } else if let Some((_, sequence)) = current.as_mut() {
            sequence.push_str(line);
        }
    }
    results.extend(current.take().map(summary));
    results
}

fn summary(record: (String, String)) -> GcResult {
    let (name, sequence) = record;
    GcResult {
        name,
        length: sequence.chars().count(),
        gc_count: sequence.chars().filter(|c| matches!(c, 'G' | 'C' | 'g' | 'c')).count(),
    }
}

/// A text of `len` characters drawn from `alphabet`, the same for the same
/// `seed`.
fn text_from(alphabet: &[char], len: usize, seed: u64) -> String {
    let mut state = seed;
    let mut text = String::new();
    for _ in 0..len {
        state = state.wrapping_mul(6364136223846793005).wrapping_add(1442695040888963407);
        text.push(alphabet[(state >> 33) as usize % alphabet.len()]);
    }
    text
}

#[test]
fn agrees_with_the_standard_library_on_short_texts() {
    let alphabet = ['>', '\n', ' ', 'G', 'a'];
    for len in 0..=6 {
        let mut indices = vec![0usize; len];
        loop {
            let text: String = indices.iter().map(|&i| alphabet[i]).collect();
            assert_eq!(calculate_gc_content(&text), read_with_std(&text), "{:?}", text);
            let mut position = 0;
            while position < len && indices[position] + 1 == alphabet.len() {
                indices[position] = 0;
                position += 1;
            }
            if position == len {
                break;
            }
            indices[position] += 1;
        }
    }
}

#[test]
fn agrees_with_the_standard_library_on_mixed_texts() {
    let alphabet = [
        '>', '>', '\n', '\n', '\n', '\r', ' ', '\t', '\u{a0}', '\u{2003}', '\u{feff}', 'G', 'C',
        'g', 'c', 'A', 't', 'N', '-', '\u{e9}', '\u{1f9ec}',
    ];
    for seed in 0..3000 {
        let text = text_from(&alphabet, (seed % 60) as usize, seed);
        assert_eq!(calculate_gc_content(&text), read_with_std(&text), "{:?}", text);
    }
}

#[test]
fn agrees_with_the_standard_library_on_texts_of_many_lines() {
    let alphabet = ['>', '\n', 'G', 'C', 'A', 'T', 'G', 'C', 'A', 'T', ' ', 's', '1'];
    for seed in 0..200 {
        let text = text_from(&alphabet, 2000, seed + 7);
        assert_eq!(calculate_gc_content(&text), read_with_std(&text), "{:?}", text);
    }
}
