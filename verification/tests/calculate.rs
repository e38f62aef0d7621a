use gc_calculator::calculate_gc_content;

/// One result, with the GC content as a ratio.
struct Row {
    name: String,
    length: usize,
    gc_count: usize,
    gc_content: f64,
}

fn parse(fasta: &str) -> Vec<Row> {
    calculate_gc_content(fasta)
        .into_iter()
        .map(|result| Row {
            gc_content: if result.length > 0 {
                result.gc_count as f64 / result.length as f64
            } else {
                0.0
            },
            name: result.name,
            length: result.length,
            gc_count: result.gc_count,
        })
        .collect()
}

#[test]
fn test_all_gc() {
    let results = parse(">s\nGCGCGCGC\n");
    assert_eq!(results.len(), 1);
    assert_eq!(results[0].length, 8);
    assert_eq!(results[0].gc_count, 8);
    assert_eq!(results[0].gc_content, 1.0);
}

#[test]
fn test_no_gc() {
    let results = parse(">s\nATATATAT\n");
    assert_eq!(results[0].gc_content, 0.0);
    assert_eq!(results[0].gc_count, 0);
}

#[test]
fn test_multiline_sequence() {
    let results = parse(">s\nATGC\nATGC\n");
    assert_eq!(results[0].length, 8);
    assert_eq!(results[0].gc_count, 4);
    assert_eq!(results[0].gc_content, 0.5);
}

#[test]
fn test_multiple_sequences() {
    let fasta = ">s1\nGGGG\n>s2\nAAAA\n";
    let results = parse(fasta);
    assert_eq!(results.len(), 2);
    assert_eq!(results[0].name, "s1");
    assert_eq!(results[0].gc_content, 1.0);
    assert_eq!(results[1].name, "s2");
    assert_eq!(results[1].gc_content, 0.0);
}

#[test]
fn test_empty_input() {
    assert!(parse("").is_empty());
}

#[test]
fn test_case_insensitive() {
    let results = parse(">s\ngcGC\n");
    assert_eq!(results[0].gc_content, 1.0);
}

#[test]
fn test_single_base() {
    let results = parse(">s\nA\n");
    assert_eq!(results[0].length, 1);
    assert_eq!(results[0].gc_content, 0.0);
}

#[test]
fn all_gc_gives_the_whole_record() {
    let results = parse(">s\nGCGCGCGC\n");
    assert_eq!(results.len(), 1);
    assert_eq!(results[0].name, "s");
    assert_eq!(results[0].length, 8);
    assert_eq!(results[0].gc_count, 8);
    assert_eq!(results[0].gc_content, 1.0);
}

#[test]
fn no_gc_gives_length_and_zero_content() {
    let results = parse(">s\nATATATAT\n");
    assert_eq!(results.len(), 1);
    assert_eq!(results[0].length, 8);
    assert_eq!(results[0].gc_count, 0);
    assert_eq!(results[0].gc_content, 0.0);
}

#[test]
fn lines_of_a_body_are_joined_into_one_record() {
    let results = parse(">s\nATGC\nATGC\n");
    assert_eq!(results.len(), 1);
    assert_eq!(results[0].name, "s");
    assert_eq!(results[0].length, 8);
    assert_eq!(results[0].gc_count, 4);
    assert_eq!(results[0].gc_content, 0.5);
}

#[test]
fn results_follow_the_order_of_the_headers() {
    let results = parse(">s1\nGGGG\n>s2\nAAAA\n");
    assert_eq!(results.len(), 2);
    assert_eq!(results[0].name, "s1");
    assert_eq!(results[0].length, 4);
    assert_eq!(results[0].gc_count, 4);
    assert_eq!(results[0].gc_content, 1.0);
    assert_eq!(results[1].name, "s2");
    assert_eq!(results[1].length, 4);
    assert_eq!(results[1].gc_count, 0);
    assert_eq!(results[1].gc_content, 0.0);
}

#[test]
fn gc_content_is_an_exact_ratio() {
    let results = parse(">q\nGATTACAG\n>t\nGCA\n");
    assert_eq!(results[0].length, 8);
    assert_eq!(results[0].gc_count, 3);
    assert_eq!(results[0].gc_content, 0.375);
    assert_eq!(results[1].length, 3);
    assert_eq!(results[1].gc_count, 2);
    assert_eq!(results[1].gc_content, 2.0 / 3.0);
}

#[test]
fn gc_content_lies_between_zero_and_one() {
    let texts = [
        "",
        ">a\n",
        ">a\nG\n",
        ">a\nA\n",
        ">a\nGATTACA\n>b\nCCCGGG\n>c\nnnnn\n",
        "junk\n>a\nG C\n\n\n>b\n>c\nAT-GC\n",
        ">\u{3b1}\n\u{3b2}G\u{3b3}c\n",
    ];
    for text in texts {
        for row in parse(text) {
            assert!(row.gc_count <= row.length);
            assert!(0.0 <= row.gc_content && row.gc_content <= 1.0);
        }
    }
}
