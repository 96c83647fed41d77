use pixel_app::query_params::{GifRenderQuery, GifRenderType, RenderQuery, VideoFrameQuery};
use pixel_app::search_query::SearchQuery;

#[test]
fn query_params_test_get_hashmap_color_subs() {
    let sq = RenderQuery { query: None };
    let hm = sq.get_color_subs();
    assert_eq!(hm.len(), 0);

    let sq = RenderQuery { query: Some("123456=fffefd".to_string()) };
    let hm = sq.get_color_subs();
    assert_eq!(hm.len(), 1);
    assert_eq!(hm.contains_key("123456"), true);
    assert_eq!(hm.get("123456"), Some(&"fffefd".to_string()));

    let sq = RenderQuery {
        query: Some("123456=fffefd&123456=ffffff&654321=aaaaaa".to_string()),
    };
    let hm = sq.get_color_subs();
    assert_eq!(hm.len(), 2);
    assert_eq!(hm.contains_key("123456"), true);
    assert_eq!(hm.get("123456"), Some(&"fffefd".to_string()));
    assert_eq!(hm.contains_key("654321"), true);
    assert_eq!(hm.get("654321"), Some(&"aaaaaa".to_string()));
}

#[test]
fn test_get_video_frame_query() {
    let vq = VideoFrameQuery::from_query(123, "".to_string());
    assert_eq!(vq.start, 1);
    assert_eq!(vq.end, 123);

    let vq = VideoFrameQuery::from_query(234, "start=4&end=56".to_string());
    assert_eq!(vq.start, 4);
    assert_eq!(vq.end, 56);

    let vq = VideoFrameQuery::from_query(234, "start=400&end=232".to_string());
    assert_eq!(vq.start, 234);
    assert_eq!(vq.end, 234);

    let vq = VideoFrameQuery::from_query(496, "start=421".to_string());
    assert_eq!(vq.start, 421);
    assert_eq!(vq.end, 496);

    let vq = VideoFrameQuery::from_query(496, "end=421".to_string());
    assert_eq!(vq.start, 1);
    assert_eq!(vq.end, 421);
}

#[test]
fn search_query_test_get_hashmap_color_subs() {
    let sq = SearchQuery { search: None };
    let hm = sq.get_color_subs();
    assert_eq!(hm.len(), 0);

    let sq = SearchQuery { search: Some("123456=fffefd".to_string()) };
    let hm = sq.get_color_subs();
    assert_eq!(hm.len(), 1);
    assert_eq!(hm.contains_key("123456"), true);
    assert_eq!(hm.get("123456"), Some(&"fffefd".to_string()));

    let sq = SearchQuery {
        search: Some("123456=fffefd&123456=ffffff&654321=aaaaaa".to_string()),
    };
    let hm = sq.get_color_subs();
    assert_eq!(hm.len(), 2);
    assert_eq!(hm.contains_key("123456"), true);
    assert_eq!(hm.get("123456"), Some(&"fffefd".to_string()));
    assert_eq!(hm.contains_key("654321"), true);
    assert_eq!(hm.get("654321"), Some(&"aaaaaa".to_string()));
}

#[test]
fn color_subs_skip_malformed_pieces() {
    let q = GifRenderQuery::new("abc=def&1234567=aaaaaa&111111=222222=333333&&999999=000000".to_string());
    let hm = q.get_color_subs();
    assert_eq!(hm.len(), 1);
    assert_eq!(hm.get("999999"), Some(&"000000".to_string()));
    assert_eq!(hm.get("abc"), None);
    assert!(!hm.contains_key("111111"));
}

#[test]
fn gif_render_type_names() {
    let cases = [
        ("render_type=forward", GifRenderType::Forward),
        ("render_type=fwd", GifRenderType::Forward),
        ("render_type=backwards", GifRenderType::Backward),
        ("render_type=b", GifRenderType::Backward),
        ("render_type=both", GifRenderType::Both),
        ("render_type=bth", GifRenderType::Both),
        ("render_type=sideways", GifRenderType::Forward),
        ("123456=ffffff", GifRenderType::Forward),
        ("render_type=both&render_type=bwd", GifRenderType::Backward),
        ("", GifRenderType::Forward),
    ];
    for (q, expected) in cases.iter() {
        assert_eq!(GifRenderQuery::new(q.to_string()).get_render_type(), *expected);
    }
    assert_eq!(GifRenderQuery::_default().get_render_type(), GifRenderType::Forward);
    assert_eq!(GifRenderQuery::_default().query, None);
}

#[test]
fn video_frame_query_details() {
    let vq = VideoFrameQuery::from_query(100, "START=10&End=+20".to_string());
    assert_eq!((vq.start, vq.end, vq.diff), (10, 20, 10));
    let vq = VideoFrameQuery::from_query(0, "".to_string());
    assert_eq!((vq.start, vq.end, vq.diff), (0, 0, 0));
    let vq = VideoFrameQuery::from_query(50, "start=7&other=x&start=9".to_string());
    assert_eq!((vq.start, vq.end, vq.diff), (9, 50, 41));
    let vq = VideoFrameQuery::default();
    assert_eq!((vq.start, vq.end, vq.diff), (0, 0, 0));
}
