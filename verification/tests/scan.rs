use far::matcher::CompiledPattern;
use far::model::{FarFile, FarState, Hit, InputPattern};
use far::scan::{push_span_hits, scan, scan_file, scan_line, split_span};

fn file(name: &str, content: &str) -> FarFile {
    FarFile {
        file_name: format!("/root{}", name),
        relative_file_name: name.to_string(),
        content: content.to_string(),
    }
}

fn compiled(pairs: &[(&str, &str)]) -> Vec<CompiledPattern> {
    pairs
        .iter()
        .map(|(find, replace)| {
            CompiledPattern::compile(InputPattern::new(find.to_string(), replace.to_string()))
                .ok()
                .unwrap()
        })
        .collect()
}

fn brief(hit: &Hit) -> (usize, usize, String, String, String, String) {
    (
        hit.index,
        hit.line_number,
        hit.relative_file_name.clone(),
        hit.line_before_match.clone(),
        hit.matched_text.clone(),
        hit.line_after_match.clone(),
    )
}

fn row(
    index: usize,
    line_number: usize,
    name: &str,
    before: &str,
    matched: &str,
    after: &str,
) -> (usize, usize, String, String, String, String) {
    (
        index,
        line_number,
        name.to_string(),
        before.to_string(),
        matched.to_string(),
        after.to_string(),
    )
}

#[test]
fn split_span_cuts_a_line_in_three() {
    let (before, matched, after) = split_span("foo bar baz", (4, 7));
    assert_eq!(before, "foo ");
    assert_eq!(matched, "bar");
    assert_eq!(after, " baz");
}

#[test]
fn split_span_at_the_ends_of_a_line() {
    assert_eq!(
        split_span("abc", (0, 3)),
        (String::new(), "abc".to_string(), String::new())
    );
    assert_eq!(
        split_span("abc", (0, 0)),
        (String::new(), String::new(), "abc".to_string())
    );
    assert_eq!(
        split_span("abc", (3, 3)),
        ("abc".to_string(), String::new(), String::new())
    );
    assert_eq!(split_span("", (0, 0)), (String::new(), String::new(), String::new()));
}

#[test]
fn split_span_counts_in_bytes() {
    let (before, matched, after) = split_span("\u{3b1}\u{3b2} foo \u{1F600}", (5, 8));
    assert_eq!(before, "\u{3b1}\u{3b2} ");
    assert_eq!(matched, "foo");
    assert_eq!(after, " \u{1F600}");
}

#[test]
fn push_span_hits_makes_one_hit_for_each_span() {
    let source = file("/a.txt", "irrelevant");
    let pattern = InputPattern::new("o+".to_string(), "0".to_string());
    let mut hits: Vec<Hit> = Vec::new();
    push_span_hits(&source, 7, "foo boo", &pattern, &vec![(1, 3), (5, 7)], &mut hits);
    assert_eq!(hits.len(), 2);
    assert_eq!(brief(&hits[0]), row(0, 7, "/a.txt", "f", "oo", " boo"));
    assert_eq!(brief(&hits[1]), row(1, 7, "/a.txt", "foo b", "oo", ""));
    for hit in &hits {
        assert_eq!(hit.state, FarState::Undecided);
        assert_eq!(hit.full_line, "foo boo");
        assert_eq!(hit.file_name, "/root/a.txt");
        assert_eq!(hit.input_pattern, pattern);
    }
}

#[test]
fn push_span_hits_numbers_on_from_the_hits_already_there() {
    let source = file("/a.txt", "");
    let pattern = InputPattern::new("x".to_string(), "y".to_string());
    let mut hits: Vec<Hit> = Vec::new();
    push_span_hits(&source, 1, "x", &pattern, &vec![(0, 1)], &mut hits);
    push_span_hits(&source, 2, "xx", &pattern, &vec![(0, 1), (1, 2)], &mut hits);
    push_span_hits(&source, 3, "none", &pattern, &vec![], &mut hits);
    let indexes: Vec<usize> = hits.iter().map(|h| h.index).collect();
    assert_eq!(indexes, vec![0, 1, 2]);
    assert_eq!(hits[2].line_before_match, "x");
    assert_eq!(hits[2].line_number, 2);
}

#[test]
fn scan_line_goes_pattern_by_pattern() {
    let source = file("/a.txt", "");
    let patterns = compiled(&[("b", "B"), ("a", "A")]);
    let mut hits: Vec<Hit> = Vec::new();
    scan_line(&source, 3, "abab", &patterns, &mut hits);
    let found: Vec<_> = hits.iter().map(brief).collect();
    assert_eq!(
        found,
        vec![
            row(0, 3, "/a.txt", "a", "b", "ab"),
            row(1, 3, "/a.txt", "aba", "b", ""),
            row(2, 3, "/a.txt", "", "a", "bab"),
            row(3, 3, "/a.txt", "ab", "a", "b"),
        ]
    );
    assert_eq!(hits[0].input_pattern.replace, "B");
    assert_eq!(hits[2].input_pattern.replace, "A");
}

#[test]
fn scan_file_trims_lines_and_passes_over_empty_ones() {
    let source = file("/a.txt", "  foo  \n\n\t\nbar foo\r\n   \nfoo");
    let patterns = compiled(&[("foo", "qux")]);
    let mut hits: Vec<Hit> = Vec::new();
    scan_file(&source, &patterns, &mut hits);
    let found: Vec<_> = hits.iter().map(brief).collect();
    assert_eq!(
        found,
        vec![
            row(0, 1, "/a.txt", "", "foo", ""),
            row(1, 4, "/a.txt", "bar ", "foo", ""),
            row(2, 6, "/a.txt", "", "foo", ""),
        ]
    );
    assert_eq!(hits[0].full_line, "foo");
    assert_eq!(hits[1].full_line, "bar foo");
}

#[test]
fn scan_file_of_an_empty_file_finds_nothing() {
    let patterns = compiled(&[("", "x"), ("a*", "y")]);
    let mut hits: Vec<Hit> = Vec::new();
    scan_file(&file("/empty", ""), &patterns, &mut hits);
    scan_file(&file("/blank", "\n  \n\t\n"), &patterns, &mut hits);
    assert!(hits.is_empty());
}

#[test]
fn scan_yields_one_hit_in_each_of_two_files() {
    let files = vec![file("/a.txt", "foo bar"), file("/b.txt", "foo baz")];
    let hits = scan(&files, &compiled(&[("foo", "qux")]));
    let found: Vec<_> = hits.iter().map(brief).collect();
    assert_eq!(
        found,
        vec![
            row(0, 1, "/a.txt", "", "foo", " bar"),
            row(1, 1, "/b.txt", "", "foo", " baz"),
        ]
    );
    assert_eq!(hits[0].file_name, "/root/a.txt");
    assert_eq!(hits[1].file_name, "/root/b.txt");
    assert_eq!(hits[0].input_pattern.replace, "qux");
}

#[test]
fn scan_goes_by_file_then_line_then_pattern_then_match() {
    let files = vec![file("/1", "ab ab\nb"), file("/2", "ba")];
    let hits = scan(&files, &compiled(&[("a", "x"), ("b", "y")]));
    let found: Vec<_> = hits.iter().map(brief).collect();
    assert_eq!(
        found,
        vec![
            row(0, 1, "/1", "", "a", "b ab"),
            row(1, 1, "/1", "ab ", "a", "b"),
            row(2, 1, "/1", "a", "b", " ab"),
            row(3, 1, "/1", "ab a", "b", ""),
            row(4, 2, "/1", "", "b", ""),
            row(5, 1, "/2", "b", "a", ""),
            row(6, 1, "/2", "", "b", "a"),
        ]
    );
}

#[test]
fn scan_makes_a_hit_for_each_pattern_that_matches_the_same_text() {
    let files = vec![file("/1", "foo")];
    let hits = scan(&files, &compiled(&[("foo", "x"), ("foo", "y"), ("f.o", "z")]));
    assert_eq!(hits.len(), 3);
    for (i, hit) in hits.iter().enumerate() {
        assert_eq!(brief(hit), row(i, 1, "/1", "", "foo", ""));
    }
}

#[test]
fn scan_without_patterns_or_files_finds_nothing() {
    assert!(scan(&vec![file("/1", "foo")], &Vec::new()).is_empty());
    assert!(scan(&Vec::new(), &compiled(&[("foo", "x")])).is_empty());
}

#[test]
fn scan_starts_every_hit_undecided() {
    let hits = scan(&vec![file("/1", "a a a\na")], &compiled(&[("a", "b")]));
    assert_eq!(hits.len(), 4);
    assert!(hits.iter().all(|h| h.state == FarState::Undecided));
}

#[test]
fn hits_hold_the_trimmed_line_of_their_file() {
    let contents = [
        "alpha beta\n  gamma alpha  \n\nalphaalpha\r\n\talpha",
        "\u{3b1}\u{3b2}\u{3b3} alpha \u{3b4}\n\u{A0}alpha\u{3000}\n",
        "no match here\n",
        "",
    ];
    let files: Vec<FarFile> = contents
        .iter()
        .enumerate()
        .map(|(i, content)| file(&format!("/{}", i), content))
        .collect();
    let hits = scan(&files, &compiled(&[("alpha", "omega"), ("a", "A"), ("\\s+", "_")]));
    assert!(hits.len() > 10);
    for (i, hit) in hits.iter().enumerate() {
        assert_eq!(hit.index, i);
        let source = files.iter().find(|f| f.file_name == hit.file_name).unwrap();
        let line = source.content.lines().nth(hit.line_number - 1).unwrap().trim();
        assert_eq!(hit.full_line, line);
        assert_eq!(
            format!("{}{}{}", hit.line_before_match, hit.matched_text, hit.line_after_match),
            line
        );
        assert_eq!(hit.relative_file_name, source.relative_file_name);
    }
}

#[test]
fn scan_finds_what_the_regex_crate_finds_in_each_trimmed_line() {
    let content = "  one two  \nthree\n\n four five six \n";
    let find = "[a-z]+e";
    let hits = scan(&vec![file("/f", content)], &compiled(&[(find, "")]));
    let re = regex::Regex::new(find).unwrap();
    let mut expected: Vec<(usize, String, String, String)> = Vec::new();
    for (i, line) in content.lines().enumerate() {
        let line = line.trim();
        for m in re.find_iter(line) {
            expected.push((
                i + 1,
                line[..m.start()].to_string(),
                m.as_str().to_string(),
                line[m.end()..].to_string(),
            ));
        }
    }
    let found: Vec<(usize, String, String, String)> = hits
        .iter()
        .map(|h| {
            (
                h.line_number,
                h.line_before_match.clone(),
                h.matched_text.clone(),
                h.line_after_match.clone(),
            )
        })
        .collect();
    assert_eq!(found, expected);
    assert_eq!(found.len(), 3);
}

#[test]
fn hit_clone_is_equal() {
    let hits = scan(&vec![file("/1", "foo")], &compiled(&[("foo", "x")]));
    assert_eq!(hits[0].clone(), hits[0]);
}
