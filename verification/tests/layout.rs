use depict::color::Color;
use depict::font::{FontEmphasis, FontThickness};
use depict::glyph::{Glyph, GlyphMetrics, TextRenderingData, UNASSIGNED};
use depict::layout::{lines, widest_of, Chunk, LineEnd};

fn glyph(character: char) -> Glyph {
    Glyph {
        character,
        font_id: 0,
        image_id: UNASSIGNED,
        size: 16,
        color: Color::black(),
        thickness: FontThickness::Regular,
        emphasis: FontEmphasis::Regular,
    }
}

fn metrics(advance_width: u32) -> GlyphMetrics {
    GlyphMetrics { advance_width, width: advance_width, height: 10, xmin: 0, ymin: 0 }
}

/// Every character ten wide, except line breaks, which have no width.
fn data(text: &str) -> TextRenderingData {
    TextRenderingData {
        glyphs: text.chars().map(glyph).collect(),
        metrics: text
            .chars()
            .map(|c| if c == '\n' || c == '\r' { metrics(0) } else { metrics(10) })
            .collect(),
    }
}

fn shape(lines: &Vec<Chunk>) -> Vec<(Vec<usize>, u64, LineEnd)> {
    lines.iter().map(|l| (l.indices.clone(), l.width, l.ending)).collect()
}

#[test]
fn empty_text_has_no_lines() {
    let (lines, width) = lines(&data(""), Some(100), true);
    assert!(lines.is_empty());
    assert_eq!(width, 0);
}

#[test]
fn line_break_splits_into_two_lines() {
    let (lines, width) = lines(&data("ab\ncd"), None, true);
    assert_eq!(
        shape(&lines),
        vec![(vec![0, 1], 20, LineEnd::Newline), (vec![3, 4], 20, LineEnd::Advance)]
    );
    assert_eq!(width, 20);
}

#[test]
fn unbounded_width_never_wraps() {
    let (lines, width) = lines(&data("the quick brown fox"), None, true);
    assert_eq!(lines.len(), 1);
    assert_eq!(lines[0].indices, (0..19).collect::<Vec<usize>>());
    assert_eq!(lines[0].width, 190);
    assert_eq!(width, 190);
}

#[test]
fn words_wrap_at_the_width() {
    // "aaa bbb ccc": a word is 30 wide, a blank 10.
    let (lines, width) = lines(&data("aaa bbb ccc"), Some(70), true);
    assert_eq!(
        shape(&lines),
        vec![
            (vec![0, 1, 2, 3, 4, 5, 6], 70, LineEnd::Advance),
            (vec![7, 8, 9, 10], 40, LineEnd::Advance),
        ]
    );
    assert_eq!(width, 70);
}

#[test]
fn a_blank_that_does_not_fit_starts_the_next_line() {
    let (lines, _) = lines(&data("aaa bbb"), Some(30), true);
    assert_eq!(
        shape(&lines),
        vec![(vec![0, 1, 2], 30, LineEnd::Advance), (vec![3], 10, LineEnd::Advance), (
            vec![4, 5, 6],
            30,
            LineEnd::Advance,
        )]
    );
}

#[test]
fn long_word_is_cut_glyph_by_glyph() {
    let (lines, width) = lines(&data("abcdefg"), Some(30), true);
    assert_eq!(
        shape(&lines),
        vec![
            (vec![0, 1, 2], 30, LineEnd::HardBreak),
            (vec![3, 4, 5], 30, LineEnd::HardBreak),
            (vec![6], 10, LineEnd::Advance),
        ]
    );
    assert_eq!(width, 30);
}

#[test]
fn long_word_after_a_short_one_starts_its_own_line() {
    let (lines, _) = lines(&data("ab cdefgh"), Some(30), true);
    assert_eq!(
        shape(&lines),
        vec![
            (vec![0, 1, 2], 30, LineEnd::Advance),
            (vec![3, 4, 5], 30, LineEnd::HardBreak),
            (vec![6, 7, 8], 30, LineEnd::Advance),
        ]
    );
}

#[test]
fn single_glyph_wider_than_the_line_stands_alone() {
    let mut text = data("ab");
    text.metrics[0] = metrics(50);
    let (lines, width) = lines(&text, Some(30), true);
    assert_eq!(
        shape(&lines),
        vec![(vec![0], 50, LineEnd::HardBreak), (vec![1], 10, LineEnd::Advance)]
    );
    assert_eq!(width, 50);
}

#[test]
fn every_line_is_within_the_width() {
    let text = data("lorem ipsum dolor sit amet consectetur adipiscing elit sed do");
    for limit in [10u32, 25, 40, 55, 100, 1000] {
        let (lines, width) = lines(&text, Some(limit), true);
        let mut seen = Vec::new();
        for line in &lines {
            assert!(line.width <= limit as u64 || line.indices.len() == 1);
            assert_eq!(line.width, 10 * line.indices.len() as u64);
            seen.extend(line.indices.iter().copied());
        }
        assert!(seen.windows(2).all(|w| w[0] < w[1]));
        assert_eq!(seen.len(), text.glyphs.len());
        assert_eq!(width, lines.iter().map(|l| l.width).max().unwrap());
    }
}

#[test]
fn trimming_drops_repeated_blanks() {
    let (trimmed, _) = lines(&data("a  \t b"), None, true);
    assert_eq!(shape(&trimmed), vec![(vec![0, 1, 5], 30, LineEnd::Advance)]);
    let (kept, _) = lines(&data("a  \t b"), None, false);
    assert_eq!(shape(&kept), vec![(vec![0, 1, 2, 3, 4, 5], 60, LineEnd::Advance)]);
}

#[test]
fn trimming_drops_a_blank_after_a_line_break() {
    let (trimmed, _) = lines(&data("a\n b"), None, true);
    assert_eq!(
        shape(&trimmed),
        vec![(vec![0], 10, LineEnd::Newline), (vec![3], 10, LineEnd::Advance)]
    );
    let (kept, _) = lines(&data("a\n b"), None, false);
    assert_eq!(
        shape(&kept),
        vec![(vec![0], 10, LineEnd::Newline), (vec![2, 3], 20, LineEnd::Advance)]
    );
}

#[test]
fn a_leading_blank_is_kept() {
    let (lines, _) = lines(&data(" a"), None, true);
    assert_eq!(shape(&lines), vec![(vec![0, 1], 20, LineEnd::Advance)]);
}

#[test]
fn whitespace_only_text_still_ends_lines() {
    let (lines, width) = lines(&data("\n\n"), Some(50), true);
    assert_eq!(
        shape(&lines),
        vec![(vec![], 0, LineEnd::Newline), (vec![], 0, LineEnd::Newline)]
    );
    assert_eq!(width, 0);
    let (blanks, _) = lines_of_blanks();
    assert_eq!(shape(&blanks), vec![(vec![0], 10, LineEnd::Newline), (vec![2], 10, LineEnd::Advance)]);
}

fn lines_of_blanks() -> (Vec<Chunk>, u64) {
    lines(&data(" \n "), Some(50), false)
}

#[test]
fn carriage_return_ends_a_line_with_its_own_ending() {
    let (lines, _) = lines(&data("ab\rcd"), None, true);
    assert_eq!(
        shape(&lines),
        vec![(vec![0, 1], 20, LineEnd::Return), (vec![3, 4], 20, LineEnd::Advance)]
    );
}

#[test]
fn line_break_flushes_regardless_of_width() {
    let (lines, _) = lines(&data("a\nb"), Some(1000), true);
    assert_eq!(lines.len(), 2);
    let (lines, _) = lines_with_trailing_break();
    assert_eq!(shape(&lines), vec![(vec![0, 1], 20, LineEnd::Newline)]);
}

fn lines_with_trailing_break() -> (Vec<Chunk>, u64) {
    lines(&data("ab\n"), None, true)
}

#[test]
fn chunk_operations() {
    let mut chunk = Chunk::empty();
    assert!(chunk.is_empty());
    chunk.add(4, 7);
    chunk.add(5, 3);
    assert_eq!((chunk.indices.clone(), chunk.width), (vec![4, 5], 10));
    assert!(!chunk.is_empty());
    let other = Chunk::new(vec![9], 5);
    chunk.extend(&other);
    assert_eq!((chunk.indices.clone(), chunk.width), (vec![4, 5, 9], 15));
    let whole = Chunk::flatten(&vec![Chunk::new(vec![1, 2], 4), Chunk::empty(), Chunk::new(vec![3], 6)]);
    assert_eq!((whole.indices.clone(), whole.width), (vec![1, 2, 3], 10));
    assert_eq!(widest_of(&vec![Chunk::new(vec![1], 4), Chunk::new(vec![2], 9)]), 9);
    assert_eq!(widest_of(&vec![]), 0);
    chunk.reset();
    assert!(chunk.is_empty());
}
