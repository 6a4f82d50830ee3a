use vstd::prelude::*;

use crate::service::text::{concat2, last_path_segment, last_segment};

verus! {

/// An audio file whose tags could not be read: it goes by its file name.
#[derive(Debug)]
pub struct UntaggedFileSong {
    title: String,
    path: String,
}

impl UntaggedFileSong {
    pub closed spec fn title_view(&self) -> Seq<char> {
        self.title@
    }

    pub closed spec fn path_view(&self) -> Seq<char> {
        self.path@
    }

    /// The song at `path`, titled with the last piece of the path. Panics
    /// where the path is empty.
    pub fn from_file_path(path: &str) -> (r: UntaggedFileSong)
        requires
            path@.len() > 0,
        ensures
            r.title_view() == last_segment(path@),
            r.path_view() == path@,
    {
        UntaggedFileSong { title: last_path_segment(path), path: String::from_str(path) }
    }

    pub fn is_online(&self) -> (r: bool)
        ensures
            !r,
    {
        false
    }

    pub fn title(&self) -> (r: &str)
        ensures
            r@ == self.title_view(),
    {
        self.title.as_str()
    }

    /// The lines shown about the song.
    pub fn get_showable_info(&self) -> (r: Vec<String>)
        ensures
            r@.len() == 1,
            r@[0]@ == "title: "@ + self.title_view(),
    {
        vec![concat2("title: ", self.title.as_str())]
    }

    /// The uri the song is played from.
    pub fn get_uri(&self) -> (r: String)
        ensures
            r@ == "file://"@ + self.path_view(),
    {
        concat2("file://", self.path.as_str())
    }
}

} // verus!
