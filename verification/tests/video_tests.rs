use pixel_app::query_params::VideoFrameQuery;
use pixel_app::video::{
    count_png_files, extension, file_name, pending_name_readable, pending_video_guid, plan_frame_indexes,
    upload_field, upload_file_ending, upload_file_path, video_frame_path, FramePlan, UploadField, VideoUploadDetails,
    MAX_FRAME_LIMIT,
};
use pixel_app::video_models::{VideoModel, VideoView, VideoViewExt, VideoViewExtFrame, VideoViewFrame, ViewList};

#[test]
fn frame_paths_are_zero_padded() {
    let g = "abc".to_string();
    assert_eq!(video_frame_path(&g, 5), "./files/videos/processed/abc/img0005.png");
    assert_eq!(video_frame_path(&g, 0), "./files/videos/processed/abc/img0000.png");
    assert_eq!(video_frame_path(&g, 1234), "./files/videos/processed/abc/img1234.png");
    assert_eq!(video_frame_path(&g, 12345), "./files/videos/processed/abc/img12345.png");
    assert_eq!(video_frame_path(&g, -1), "./files/videos/processed/abc/img00-1.png");
    assert_eq!(video_frame_path(&g, i32::MIN), "./files/videos/processed/abc/img-2147483648.png");
}

#[test]
fn file_names_of_paths() {
    assert_eq!(file_name("a/b/c.png"), Some("c.png".to_string()));
    assert_eq!(file_name("foo.txt/."), Some("foo.txt".to_string()));
    assert_eq!(file_name("foo.txt/.//"), Some("foo.txt".to_string()));
    assert_eq!(file_name("foo.txt/.."), None);
    assert_eq!(file_name("/"), None);
    assert_eq!(file_name(""), None);
}

#[test]
fn extensions_of_paths() {
    assert_eq!(extension("foo.rs"), Some("rs".to_string()));
    assert_eq!(extension("dir/foo.tar.gz"), Some("gz".to_string()));
    assert_eq!(extension("foo"), None);
    assert_eq!(extension(".hidden"), None);
    assert_eq!(extension("foo."), Some("".to_string()));
    assert_eq!(extension("a.b/c"), None);
}

#[test]
fn counting_frame_images() {
    let names = vec![
        "img0001.png".to_string(),
        "img0002.png".to_string(),
        "details.txt".to_string(),
        "upper.PNG".to_string(),
        "png".to_string(),
    ];
    assert_eq!(count_png_files(&names), 2);
    assert_eq!(count_png_files(&Vec::new()), 0);
}

#[test]
fn pending_video_ids() {
    assert_eq!(pending_video_guid(&"abc.mp4".to_string()), Some("abc".to_string()));
    assert_eq!(pending_video_guid(&"notes.txt".to_string()), None);
    assert_eq!(pending_video_guid(&"noext".to_string()), Some("n".to_string()));
    assert!(pending_name_readable(&"abc.mp4".to_string()));
    assert!(pending_name_readable(&"notes.txt".to_string()));
    // three bytes and no extension: four bytes cannot be cut off
    assert!(!pending_name_readable(&"aé".to_string()));
}

#[test]
fn upload_form_fields() {
    assert_eq!(upload_field("file"), UploadField::File);
    assert_eq!(upload_field("name"), UploadField::Name);
    assert_eq!(upload_field("description"), UploadField::Description);
    assert_eq!(upload_field("File"), UploadField::Other);
    assert_eq!(upload_file_ending("video/mp4"), Some("mp4".to_string()));
    assert_eq!(upload_file_ending("video/webm"), None);
    assert_eq!(upload_file_path(&"abc".to_string(), &"mp4".to_string()), "./files/videos/ready/abc.mp4");
}

#[test]
fn upload_details_file() {
    let mut d = VideoUploadDetails::new("1234".to_string());
    assert_eq!(d.guid, "1234");
    assert_eq!(d.name, "");
    assert_eq!(d.description, "");
    d.name = "My video".to_string();
    d.description = "A test".to_string();
    assert_eq!(d.details_path(), "./files/videos/ready/1234.txt");
    assert_eq!(d.details_content(), "My video\nA test");
}

fn frames_of(p: FramePlan) -> Vec<usize> {
    match p {
        FramePlan::Frames(v) => v,
        FramePlan::Sampled { .. } => panic!("expected listed frames"),
    }
}

fn window(start: usize, end: usize) -> VideoFrameQuery {
    VideoFrameQuery { start, end, diff: end - start }
}

#[test]
fn short_windows_are_listed() {
    let q = VideoFrameQuery::from_query(100, "start=4&end=10".to_string());
    assert_eq!(frames_of(plan_frame_indexes(&q, 100, 50)), vec![4, 5, 6, 7, 8, 9]);
}

#[test]
fn windows_near_the_end_run_to_the_last_frame() {
    assert_eq!(frames_of(plan_frame_indexes(&window(5, 5), 8, 3)), vec![5, 6, 7]);
    assert_eq!(frames_of(plan_frame_indexes(&window(0, 0), 0, 10)), Vec::<usize>::new());
}

#[test]
fn long_windows_are_sampled() {
    match plan_frame_indexes(&window(10, 90), 100, 20) {
        FramePlan::Sampled { start, end, diff, max_frames } => {
            assert_eq!((start, end, diff, max_frames), (10, 90, 80, 20));
        }
        FramePlan::Frames(_) => panic!("expected sampling"),
    }
    match plan_frame_indexes(&window(0, 60), 100, 200) {
        FramePlan::Sampled { max_frames, .. } => assert_eq!(max_frames, MAX_FRAME_LIMIT),
        FramePlan::Frames(_) => panic!("expected sampling"),
    }
}

#[test]
fn empty_window_far_from_the_end_has_no_frames() {
    assert_eq!(frames_of(plan_frame_indexes(&window(0, 0), 100, 10)), Vec::<usize>::new());
}

#[test]
fn video_models_from_details() {
    let v = VideoModel::new("g".to_string());
    assert_eq!((v.guid.as_str(), v.name.as_str(), v.description.as_str(), v.frames), ("g", "", "", 0));
    let v = VideoModel::from_details(
        "g".to_string(),
        10,
        vec!["name".to_string(), "desc".to_string(), "more".to_string()],
    );
    assert_eq!((v.name.as_str(), v.description.as_str(), v.frames), ("name", "desc", 10));
    let v = VideoModel::from_details("g".to_string(), 3, vec!["only".to_string()]);
    assert_eq!((v.name.as_str(), v.description.as_str()), ("only", ""));
    let v = VideoModel::from_details("g".to_string(), 3, Vec::new());
    assert_eq!((v.name.as_str(), v.description.as_str()), ("", ""));
}

fn stored_frame(frame: i32, img: Vec<u8>) -> VideoViewFrame {
    VideoViewFrame { id: 1, video_view_id: 2, frame, x: 3, y: 4, width: 5, height: 6, img }
}

#[test]
fn view_frames_for_the_browser() {
    let f = VideoViewExtFrame::new_from_video_view_frame(&stored_frame(7, vec![1, 2, 3]));
    assert_eq!((f.frame_id, f.x, f.y, f.width, f.height), (7, 3, 4, 5, 6));
    assert_eq!(f.img, vec![1, 2, 3]);

    let view = VideoView { id: 1, guid: "vg".to_string(), video_guid: "g".to_string(), name: "view".to_string() };
    let ext = VideoViewExt::from_view(view, &vec![stored_frame(3, vec![9]), stored_frame(1, vec![])]);
    assert_eq!(ext.guid, "vg");
    assert_eq!(ext.name, "view");
    assert_eq!(ext.frames.len(), 2);
    assert_eq!(ext.frames[0].img, vec![9]);
    assert_eq!(ext.frame_ids(), vec![3, 1]);

    let empty = VideoViewExt::default();
    assert_eq!(empty.frames.len(), 0);
    assert_eq!(empty.frame_ids(), Vec::<i32>::new());
}

#[test]
fn view_list_entries() {
    let views = vec![
        VideoView { id: 1, guid: "a".to_string(), video_guid: "v".to_string(), name: "first".to_string() },
        VideoView { id: 2, guid: "b".to_string(), video_guid: "v".to_string(), name: "second".to_string() },
    ];
    let list: Vec<ViewList> = ViewList::from_views(&views);
    assert_eq!(list.len(), 2);
    assert_eq!((list[0].name.as_str(), list[0].guid.as_str()), ("first", "a"));
    assert_eq!((list[1].name.as_str(), list[1].guid.as_str()), ("second", "b"));
}

#[test]
fn saved_details_read_back() {
    let mut d = VideoUploadDetails::new("id".to_string());
    d.name = "clip".to_string();
    d.description = "a short clip".to_string();
    let content = d.details_content();
    let lines: Vec<String> = pixel_app::strings::split_string(content.as_str(), '\n');
    assert_eq!(lines, vec!["clip".to_string(), "a short clip".to_string()]);
    let v = VideoModel::from_details("id".to_string(), 0, lines);
    assert_eq!((v.name.as_str(), v.description.as_str()), ("clip", "a short clip"));
}
