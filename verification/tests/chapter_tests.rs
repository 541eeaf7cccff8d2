use shelf::chapter::{
    parse_chapter_parts, variant_offset_hundredths, variant_rank, ChapterParts, VariantRank,
};

fn number(p: &ChapterParts) -> Option<f64> {
    p.chapter_number.as_deref().map(|t| t.parse::<f64>().unwrap())
}

#[test]
fn parses_ch_dot() {
    let p = parse_chapter_parts("/lib/One Piece/Ch. 12.pdf");
    assert_eq!(number(&p), Some(12.0));
    assert_eq!(p.variant, VariantRank::Primary);
    assert_eq!(p.title, "Ch. 12");
}

#[test]
fn parses_chapter_word() {
    let p = parse_chapter_parts("Chapter 12.pdf");
    assert_eq!(number(&p), Some(12.0));
}

#[test]
fn parses_volume() {
    let p = parse_chapter_parts("Vol. 03.pdf");
    assert_eq!(p.volume_number, Some(3));
    assert_eq!(p.chapter_number, None);
}

#[test]
fn parses_v01() {
    let p = parse_chapter_parts("v01.pdf");
    assert_eq!(p.volume_number, Some(1));
}

#[test]
fn parses_japanese_chapter() {
    let p = parse_chapter_parts("第12話.pdf");
    assert_eq!(number(&p), Some(12.0));
}

#[test]
fn parses_bare_number() {
    let p = parse_chapter_parts("12.pdf");
    assert_eq!(number(&p), Some(12.0));
}

#[test]
fn parses_leading_episode_number_when_id_suffix_exists() {
    let p = parse_chapter_parts("1. 初始之風 無限之路 [201264].mp4");
    assert_eq!(number(&p), Some(1.0));
    assert_eq!(p.variant, VariantRank::Primary);
}

#[test]
fn ignores_large_timestamp_like_number() {
    let p = parse_chapter_parts("video_HQ_225305.mp4");
    assert_eq!(p.chapter_number, None);
    assert_eq!(p.volume_number, None);
}

#[test]
fn keeps_explicit_chapter_marker_over_season_number() {
    let p = parse_chapter_parts("【日語】進擊的巨人S1 第02話.mp4");
    assert_eq!(number(&p), Some(2.0));
}

#[test]
fn keeps_primary_variant_before_extras() {
    let base = parse_chapter_parts("第46话.pdf");
    let uncensored = parse_chapter_parts("第46话 (无码).pdf");
    let revised = parse_chapter_parts("第46话 改.pdf");
    let bonus = parse_chapter_parts("第46话 补图.pdf");
    for p in [&base, &uncensored, &revised, &bonus] {
        assert_eq!(number(p), Some(46.0));
    }
    assert_eq!(base.variant, VariantRank::Primary);
    assert_eq!(uncensored.variant, VariantRank::Uncensored);
    assert_eq!(revised.variant, VariantRank::Revised);
    assert_eq!(bonus.variant, VariantRank::Extra);
}

#[test]
fn applies_variant_offset_to_volume_entries() {
    let base = parse_chapter_parts("Vol. 03.pdf");
    let bonus = parse_chapter_parts("Vol. 03 特別篇.pdf");
    assert_eq!(base.volume_number, Some(3));
    assert_eq!(bonus.volume_number, Some(3));
    assert_eq!(base.variant, VariantRank::Primary);
    assert_eq!(bonus.variant, VariantRank::Extra);
}

#[test]
fn zero_and_season_episode_numbers() {
    assert_eq!(parse_chapter_parts("Chapter 0.pdf").chapter_number, None);
    let se = parse_chapter_parts("Show S1E03.mp4");
    assert_eq!(se.chapter_number.as_deref(), Some("03"));
    assert_eq!(parse_chapter_parts("Ep 2.5.mp4").chapter_number.as_deref(), Some("2.5"));
    assert_eq!(variant_rank("Episode 3 REVISED"), VariantRank::Revised);
    assert_eq!(variant_rank("Extra Story"), VariantRank::Extra);
}

#[test]
fn variant_offsets_keep_versions_together() {
    assert_eq!(variant_offset_hundredths(VariantRank::Primary), 0);
    assert_eq!(variant_offset_hundredths(VariantRank::Uncensored), 2);
    assert_eq!(variant_offset_hundredths(VariantRank::Revised), 8);
    assert_eq!(variant_offset_hundredths(VariantRank::Extra), 12);
}
