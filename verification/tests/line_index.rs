use jedit::document::line_index::{trim_terminator, LineIndex};
use jedit::error::EditError;

fn index_of(content: &str) -> LineIndex {
    let mut index = LineIndex::new();
    index.rebuild(content);
    index
}

fn spans(content: &str) -> Vec<(usize, usize)> {
    let index = index_of(content);
    (0..index.line_count()).map(|i| index.line_span(i).unwrap()).collect()
}

fn lines(content: &str) -> Vec<String> {
    let index = index_of(content);
    (0..index.line_count()).map(|i| index.line_text(content, i).unwrap().to_string()).collect()
}

#[test]
fn new_index_has_one_line_at_zero() {
    let index = LineIndex::new();
    assert_eq!(index.line_count(), 1);
    assert_eq!(index.line_span(0), Ok((0, 0)));
    assert_eq!(index.line_span(1), Err(EditError::OutOfRange));
    assert_eq!(index.line_text("", 0), Ok(""));
}

#[test]
fn rebuild_of_empty_text_has_one_empty_line() {
    assert_eq!(spans(""), vec![(0, 0)]);
    assert_eq!(lines(""), vec![""]);
}

#[test]
fn rebuild_without_terminator_has_one_line() {
    assert_eq!(spans("hello"), vec![(0, 5)]);
    assert_eq!(lines("hello"), vec!["hello"]);
}

#[test]
fn rebuild_splits_at_line_feed() {
    assert_eq!(spans("ab\ncd"), vec![(0, 3), (3, 5)]);
    assert_eq!(lines("ab\ncd"), vec!["ab", "cd"]);
}

#[test]
fn rebuild_treats_crlf_as_one_terminator() {
    assert_eq!(spans("a\r\nb"), vec![(0, 3), (3, 4)]);
    assert_eq!(lines("a\r\nb"), vec!["a", "b"]);
}

#[test]
fn rebuild_treats_lone_cr_as_terminator() {
    assert_eq!(spans("a\rb"), vec![(0, 2), (2, 3)]);
    assert_eq!(lines("a\rb"), vec!["a", "b"]);
}

#[test]
fn rebuild_handles_trailing_terminator() {
    assert_eq!(spans("ab\n"), vec![(0, 3), (3, 3)]);
    assert_eq!(lines("ab\n"), vec!["ab", ""]);
    assert_eq!(spans("ab\r"), vec![(0, 3), (3, 3)]);
    assert_eq!(spans("ab\r\n"), vec![(0, 4), (4, 4)]);
    assert_eq!(lines("ab\r\n"), vec!["ab", ""]);
}

#[test]
fn rebuild_handles_mixed_terminators() {
    let content = "one\ntwo\r\nthree\rfour\n\r\r\nend";
    assert_eq!(
        spans(content),
        vec![(0, 4), (4, 9), (9, 15), (15, 20), (20, 21), (21, 23), (23, 26)]
    );
    assert_eq!(lines(content), vec!["one", "two", "three", "four", "", "", "end"]);
}

#[test]
fn rebuild_counts_cr_cr_lf_as_two_terminators() {
    assert_eq!(spans("a\r\r\nb"), vec![(0, 2), (2, 4), (4, 5)]);
    assert_eq!(lines("a\r\r\nb"), vec!["a", "", "b"]);
}

#[test]
fn rebuild_counts_lf_cr_as_two_terminators() {
    assert_eq!(spans("a\n\rb"), vec![(0, 2), (2, 3), (3, 4)]);
    assert_eq!(lines("a\n\rb"), vec!["a", "", "b"]);
}

#[test]
fn rebuild_replaces_an_earlier_index() {
    let mut index = index_of("a\nb\nc");
    assert_eq!(index.line_count(), 3);
    index.rebuild("xy");
    assert_eq!(index.line_count(), 1);
    assert_eq!(index.line_span(0), Ok((0, 2)));
}

fn count_terminators(content: &str) -> usize {
    let bytes = content.as_bytes();
    let mut count = 0;
    let mut i = 0;
    while i < bytes.len() {
        if bytes[i] == b'\r' && i + 1 < bytes.len() && bytes[i + 1] == b'\n' {
            count += 1;
            i += 2;
        } else {
            if bytes[i] == b'\r' || bytes[i] == b'\n' {
                count += 1;
            }
            i += 1;
        }
    }
    count
}

#[test]
fn line_count_is_terminators_plus_one() {
    for content in [
        "",
        "x",
        "\n",
        "\r",
        "\r\n",
        "\n\n",
        "\r\r",
        "\n\r",
        "\r\n\r\n",
        "a\nb\r\nc\rd",
        "\r\r\n\n\r",
        "héllo\nwörld\r\n",
    ] {
        assert_eq!(index_of(content).line_count(), 1 + count_terminators(content), "{:?}", content);
    }
}

#[test]
fn line_starts_increase_and_spans_tile_the_text() {
    let content = "α\nβγ\r\n\rδ\n";
    let all = spans(content);
    assert_eq!(all[0].0, 0);
    assert_eq!(all[all.len() - 1].1, content.len());
    for i in 0..all.len() {
        assert!(all[i].0 <= all[i].1);
        if i + 1 < all.len() {
            assert_eq!(all[i].1, all[i + 1].0);
            assert!(all[i].0 < all[i + 1].0);
        }
    }
}

#[test]
fn line_span_out_of_range_is_an_error() {
    let index = index_of("ab\ncd");
    assert_eq!(index.line_span(2), Err(EditError::OutOfRange));
    assert_eq!(index.line_span(usize::MAX), Err(EditError::OutOfRange));
}

#[test]
fn line_text_out_of_range_is_an_error() {
    let content = "ab\ncd";
    let index = index_of(content);
    assert_eq!(index.line_text(content, 2), Err(EditError::OutOfRange));
}

#[test]
fn line_text_keeps_multi_byte_characters_whole() {
    let content = "naïve\n日本語\r\n🙂";
    assert_eq!(lines(content), vec!["naïve", "日本語", "🙂"]);
    assert_eq!(spans(content), vec![(0, 7), (7, 18), (18, 22)]);
}

#[test]
fn trim_terminator_strips_lf_then_cr() {
    assert_eq!(trim_terminator("abc"), "abc");
    assert_eq!(trim_terminator("abc\n"), "abc");
    assert_eq!(trim_terminator("abc\r"), "abc");
    assert_eq!(trim_terminator("abc\r\n"), "abc");
    assert_eq!(trim_terminator(""), "");
    assert_eq!(trim_terminator("\n"), "");
    assert_eq!(trim_terminator("\r\n"), "");
}

#[test]
fn trim_terminator_strips_at_most_one_of_each() {
    assert_eq!(trim_terminator("abc\n\n"), "abc\n");
    assert_eq!(trim_terminator("abc\r\r"), "abc\r");
    assert_eq!(trim_terminator("abc\n\r"), "abc\n");
    assert_eq!(trim_terminator("abc\r\r\n"), "abc\r");
}
