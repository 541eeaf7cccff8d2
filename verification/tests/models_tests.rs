use shelf::models::{
    ContentType, PageDirection, ReadingMode, SeriesFilter, SourceFormat, UserRole,
    VariantPreference, Viewer,
};

#[test]
fn names_round_trip() {
    for t in [
        ContentType::Manga,
        ContentType::Manhwa,
        ContentType::Comic,
        ContentType::Book,
        ContentType::Document,
        ContentType::Video,
    ] {
        assert_eq!(ContentType::from_str(t.as_str()), t);
    }
    for f in [SourceFormat::Pdf, SourceFormat::Mp4] {
        assert_eq!(SourceFormat::from_str(f.as_str()), f);
    }
    for v in [
        VariantPreference::Primary,
        VariantPreference::Uncensored,
        VariantPreference::Revised,
        VariantPreference::Bonus,
        VariantPreference::Alternate,
    ] {
        assert_eq!(VariantPreference::from_str(v.as_str()), v);
    }
    for m in [ReadingMode::Auto, ReadingMode::Webtoon, ReadingMode::PagedLtr, ReadingMode::PagedRtl] {
        assert_eq!(ReadingMode::from_str(m.as_str()), m);
    }
    for d in [PageDirection::Ltr, PageDirection::Rtl] {
        assert_eq!(PageDirection::from_str(d.as_str()), d);
    }
    for r in [UserRole::Owner, UserRole::Member] {
        assert_eq!(UserRole::from_str(r.as_str()), r);
    }
}

#[test]
fn unknown_names_fall_back() {
    assert_eq!(ContentType::from_str("zine"), ContentType::Manga);
    assert_eq!(SourceFormat::from_str("epub"), SourceFormat::Pdf);
    assert_eq!(ContentType::Video.as_str(), "video");
    assert_eq!(UserRole::Member.as_str(), "member");
}

#[test]
fn system_viewer_sees_everything() {
    let v = Viewer::system();
    assert_eq!(v.user_id, 1);
    assert!(v.access_all);
    let f = SeriesFilter::default();
    assert!(f.search.is_none() && !f.favorites_only && f.sort.is_empty());
}
