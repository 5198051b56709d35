use gitat::diff::DiffLineKind;
use gitat::widgets::word_diff::{
    base_style_of, checked_placements, render_content_with_word_diff, segments_of_changes, SegmentStyle, StyledSegment, WordTag,
};

fn seg(text: &str, style: SegmentStyle) -> StyledSegment {
    StyledSegment { text: text.to_string(), style }
}

#[test]
fn unpaired_content_is_one_segment() {
    let r = render_content_with_word_diff("hello world", None, DiffLineKind::Added, false);
    assert_eq!(r, vec![seg("hello world", SegmentStyle::DiffAdded)]);
    let r = render_content_with_word_diff("same", Some("same"), DiffLineKind::Context, true);
    assert_eq!(r, vec![seg("same", SegmentStyle::DiffContext)]);
}

#[test]
fn changed_word_is_highlighted_on_each_side() {
    let left = render_content_with_word_diff("a b c", Some("a x c"), DiffLineKind::Removed, true);
    let text: String = left.iter().map(|s| s.text.as_str()).collect();
    assert_eq!(text, "a b c");
    assert!(left.contains(&seg("b", SegmentStyle::WordRemoved)));
    assert!(left.contains(&seg("a", SegmentStyle::DiffRemoved)));
    let right = render_content_with_word_diff("a x c", Some("a b c"), DiffLineKind::Added, false);
    let text: String = right.iter().map(|s| s.text.as_str()).collect();
    assert_eq!(text, "a x c");
    assert!(right.contains(&seg("x", SegmentStyle::WordAdded)));
}

#[test]
fn base_styles() {
    assert_eq!(base_style_of(DiffLineKind::Added), SegmentStyle::DiffAdded);
    assert_eq!(base_style_of(DiffLineKind::Removed), SegmentStyle::DiffRemoved);
    assert_eq!(base_style_of(DiffLineKind::Context), SegmentStyle::DiffContext);
}

#[test]
fn ascii_characters_take_one_column_each() {
    let segs = vec![seg("ab", SegmentStyle::DiffAdded), seg("c", SegmentStyle::WordAdded)];
    let p = checked_placements(&segs, 0, 10).unwrap();
    assert_eq!(
        p,
        vec![(0, 'a', SegmentStyle::DiffAdded), (1, 'b', SegmentStyle::DiffAdded), (2, 'c', SegmentStyle::WordAdded)]
    );
}

#[test]
fn wide_characters_take_two_columns() {
    let segs = vec![seg("漢字x", SegmentStyle::DiffContext)];
    let p = checked_placements(&segs, 0, 10).unwrap();
    assert_eq!(p, vec![(0, '漢', SegmentStyle::DiffContext), (2, '字', SegmentStyle::DiffContext), (4, 'x', SegmentStyle::DiffContext)]);
    // A character that would cross the right edge is not drawn.
    let p = checked_placements(&segs, 0, 3).unwrap();
    assert_eq!(p, vec![(0, '漢', SegmentStyle::DiffContext)]);
}

#[test]
fn horizontal_scroll_hides_whole_characters() {
    let segs = vec![seg("漢字x", SegmentStyle::DiffContext)];
    // One column of scroll cannot hide half of the first character.
    let p = checked_placements(&segs, 1, 10).unwrap();
    assert_eq!(p[0], (0, '漢', SegmentStyle::DiffContext));
    let p = checked_placements(&segs, 2, 10).unwrap();
    assert_eq!(p, vec![(0, '字', SegmentStyle::DiffContext), (2, 'x', SegmentStyle::DiffContext)]);
    let p = checked_placements(&segs, 20, 10).unwrap();
    assert!(p.is_empty());
}

#[test]
fn control_characters_take_no_column() {
    let segs = vec![seg("a\tb", SegmentStyle::DiffContext)];
    let p = checked_placements(&segs, 0, 10).unwrap();
    assert_eq!(p, vec![(0, 'a', SegmentStyle::DiffContext), (1, '\t', SegmentStyle::DiffContext), (1, 'b', SegmentStyle::DiffContext)]);
}

#[test]
fn segments_from_given_changes() {
    let changes = vec![
        (WordTag::Equal, "x ".to_string()),
        (WordTag::Delete, "old".to_string()),
        (WordTag::Insert, "new".to_string()),
    ];
    assert_eq!(
        segments_of_changes(&changes, true, SegmentStyle::DiffRemoved),
        vec![seg("x ", SegmentStyle::DiffRemoved), seg("old", SegmentStyle::WordRemoved)]
    );
    assert_eq!(
        segments_of_changes(&changes, false, SegmentStyle::DiffAdded),
        vec![seg("x ", SegmentStyle::DiffAdded), seg("new", SegmentStyle::WordAdded)]
    );
}
