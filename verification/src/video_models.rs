//! Videos, views cut out of their frames, and the messages about them.

use vstd::prelude::*;

verus! {

/// A processed video: its id, name, description and number of frames.
pub struct VideoModel {
    pub guid: String,
    pub name: String,
    pub description: String,
    pub frames: usize,
}

impl VideoModel {
    /// A video known only by its id.
    pub fn new(guid: String) -> (v: Self)
        ensures
            v.guid == guid,
            v.name@ == Seq::<char>::empty(),
            v.description@ == Seq::<char>::empty(),
            v.frames == 0,
    {
        VideoModel { guid: guid, name: String::new(), description: String::new(), frames: 0 }
    }

    /// A video with `frames` frames whose details file holds `lines`: the
    /// first line is its name and the second its description; missing
    /// lines leave them empty.
    pub fn from_details(guid: String, frames: usize, lines: Vec<String>) -> (v: Self)
        ensures
            v.guid == guid,
            v.frames == frames,
            v.name@ == (if lines@.len() > 0 {
                lines@[0]@
            } else {
                Seq::<char>::empty()
            }),
            v.description@ == (if lines@.len() > 1 {
                lines@[1]@
            } else {
                Seq::<char>::empty()
            }),
    {
        let mut ret = VideoModel::new(guid);
        ret.frames = frames;
        if lines.len() > 0 {
            ret.name = lines[0].clone();
        }
        if lines.len() > 1 {
            ret.description = lines[1].clone();
        }
        ret
    }
}

/// A stored view of a video.
pub struct VideoView {
    pub id: i32,
    pub guid: String,
    pub video_guid: String,
    pub name: String,
}

/// A stored frame of a view: the region cut from a video frame and its
/// image data.
pub struct VideoViewFrame {
    pub id: i32,
    pub video_view_id: i32,
    pub frame: i32,
    pub x: i32,
    pub y: i32,
    pub width: i32,
    pub height: i32,
    pub img: Vec<u8>,
}

/// A view with all its frames, as sent to the browser.
pub struct VideoViewExt {
    pub guid: String,
    pub name: String,
    pub frames: Vec<VideoViewExtFrame>,
}

/// The browser's forms of stored frames, in order.
pub open spec fn ext_frames_match(ext: Seq<VideoViewExtFrame>, frames: Seq<VideoViewFrame>) -> bool {
    &&& ext.len() == frames.len()
    &&& forall|i: int|
        0 <= i < frames.len() ==> {
            let f = #[trigger] frames[i];
            let e = ext[i];
            e.frame_id == f.frame && e.x == f.x && e.y == f.y && e.width == f.width && e.height
                == f.height && e.img@ == f.img@
        }
}

impl VideoViewExt {
    /// A view with its frames, as sent to the browser: the view's id and
    /// name and each stored frame in order.
    pub fn from_view(view: VideoView, frames: &Vec<VideoViewFrame>) -> (v: Self)
        ensures
            v.guid == view.guid,
            v.name == view.name,
            ext_frames_match(v.frames@, frames@),
    {
        let mut out: Vec<VideoViewExtFrame> = Vec::new();
        let n = frames.len();
        let mut i: usize = 0;
        while i < n
            invariant
                n == frames@.len(),
                i <= n,
                ext_frames_match(out@, frames@.take(i as int)),
            decreases n - i,
        {
            let f = VideoViewExtFrame::new_from_video_view_frame(&frames[i]);
            out.push(f);
            assert forall|j: int| 0 <= j < i + 1 implies #[trigger] frames@.take(i + 1)[j]
                == frames@[j] by {}
            i = i + 1;
        }
        assert(frames@.take(n as int) =~= frames@);
        VideoViewExt { guid: view.guid, name: view.name, frames: out }
    }

    /// The frame numbers of the view's frames, in order.
    pub fn frame_ids(&self) -> (ids: Vec<i32>)
        ensures
            ids@.len() == self.frames@.len(),
            forall|i: int| 0 <= i < ids@.len() ==> ids@[i] == (#[trigger] self.frames@[i]).frame_id,
    {
        let mut ids: Vec<i32> = Vec::new();
        let n = self.frames.len();
        let mut i: usize = 0;
        while i < n
            invariant
                n == self.frames@.len(),
                i <= n,
                ids@.len() == i,
                forall|j: int| 0 <= j < i ==> ids@[j] == (#[trigger] self.frames@[j]).frame_id,
            decreases n - i,
        {
            ids.push(self.frames[i].frame_id);
            i = i + 1;
        }
        ids
    }

    /// An empty view.
    pub fn default() -> (v: Self)
        ensures
            v.guid@ == Seq::<char>::empty(),
            v.name@ == Seq::<char>::empty(),
            v.frames@.len() == 0,
    {
        VideoViewExt { guid: String::new(), name: String::new(), frames: Vec::new() }
    }
}

/// A frame of a view, as sent to the browser.
pub struct VideoViewExtFrame {
    pub frame_id: i32,
    pub x: i32,
    pub y: i32,
    pub width: i32,
    pub height: i32,
    pub img: Vec<u8>,
}

impl VideoViewExtFrame {
    /// The browser's form of a stored frame: its frame number, region and a
    /// copy of its image data.
    pub fn new_from_video_view_frame(vvf: &VideoViewFrame) -> (f: Self)
        ensures
            f.frame_id == vvf.frame,
            f.x == vvf.x,
            f.y == vvf.y,
            f.width == vvf.width,
            f.height == vvf.height,
            f.img@ == vvf.img@,
    {
        let mut out_vec: Vec<u8> = Vec::new();
        let n = vvf.img.len();
        let mut i: usize = 0;
        while i < n
            invariant
                n == vvf.img@.len(),
                i <= n,
                out_vec@ == vvf.img@.take(i as int),
            decreases n - i,
        {
            out_vec.push(vvf.img[i]);
            assert(out_vec@ =~= vvf.img@.take(i + 1));
            i = i + 1;
        }
        assert(vvf.img@.take(n as int) =~= vvf.img@);
        VideoViewExtFrame {
            frame_id: vvf.frame,
            x: vvf.x,
            y: vvf.y,
            width: vvf.width,
            height: vvf.height,
            img: out_vec,
        }
    }
}

/// A request to create a view from regions of a video's frames.
pub struct ViewCreateDesc {
    pub guid: String,
    pub name: String,
    pub frames: Vec<ViewCreateDescFrame>,
}

/// One region of a view to create.
pub struct ViewCreateDescFrame {
    pub frame_id: i32,
    pub x: i32,
    pub y: i32,
    pub width: i32,
    pub height: i32,
}

/// A view in the list of views.
pub struct ViewList {
    pub name: String,
    pub guid: String,
}

impl ViewList {
    /// The list entries of stored views: each one's name and id, in order.
    pub fn from_views(views: &Vec<VideoView>) -> (list: Vec<ViewList>)
        ensures
            list@.len() == views@.len(),
            forall|i: int|
                0 <= i < views@.len() ==> (#[trigger] list@[i]).name == views@[i].name && list@[i].guid
                    == views@[i].guid,
    {
        let mut list: Vec<ViewList> = Vec::new();
        let n = views.len();
        let mut i: usize = 0;
        while i < n
            invariant
                n == views@.len(),
                i <= n,
                list@.len() == i,
                forall|j: int|
                    0 <= j < i ==> (#[trigger] list@[j]).name == views@[j].name && list@[j].guid
                        == views@[j].guid,
            decreases n - i,
        {
            list.push(ViewList { name: views[i].name.clone(), guid: views[i].guid.clone() });
            i = i + 1;
        }
        list
    }
}

} // verus!
