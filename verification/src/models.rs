//! Plain data records that flow through the core.

use vstd::prelude::*;

verus! {

/// A user identifier as it appears in the interchange dump.
#[derive(Debug)]
pub struct UserJson {
    pub user_id: String,
}

/// A catalog video: the unit of the similarity corpus.
#[derive(Debug)]
pub struct VideosJson {
    pub video_id: String,
    pub title: String,
    pub description: String,
    pub publisher_id: String,
}

/// A like relation between a user and a video.
#[derive(Debug)]
pub struct LikesJson {
    pub video_id: String,
    pub user_id: String,
}

impl Clone for UserJson {
    fn clone(&self) -> (r: Self)
        ensures
            r.user_id@ == self.user_id@,
    {
        UserJson { user_id: self.user_id.clone() }
    }
}

impl Clone for VideosJson {
    fn clone(&self) -> (r: Self)
        ensures
            r.video_id@ == self.video_id@,
            r.title@ == self.title@,
            r.description@ == self.description@,
            r.publisher_id@ == self.publisher_id@,
    {
        VideosJson {
            video_id: self.video_id.clone(),
            title: self.title.clone(),
            description: self.description.clone(),
            publisher_id: self.publisher_id.clone(),
        }
    }
}

impl Clone for LikesJson {
    fn clone(&self) -> (r: Self)
        ensures
            r.video_id@ == self.video_id@,
            r.user_id@ == self.user_id@,
    {
        LikesJson { video_id: self.video_id.clone(), user_id: self.user_id.clone() }
    }
}

/// Field-for-field equality of two video records, stated over views.
pub open spec fn same_video(a: VideosJson, b: VideosJson) -> bool {
    &&& a.video_id@ == b.video_id@
    &&& a.title@ == b.title@
    &&& a.description@ == b.description@
    &&& a.publisher_id@ == b.publisher_id@
}

} // verus!
