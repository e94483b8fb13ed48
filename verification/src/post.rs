//! The record of one post, as the search service describes it.

use crate::text::{ends_with, final_segment, last_segment};
use vstd::prelude::*;

verus! {

/// One post of a search result. The content hash `md5` identifies it; the
/// other fields are carried along unchanged.
#[derive(Debug, PartialEq, Eq)]
pub struct GelbooruPost {
    pub id: i64,
    pub created_at: String,
    pub score: i64,
    pub width: i64,
    pub height: i64,
    pub md5: String,
    pub directory: String,
    pub image: String,
    pub rating: String,
    pub source: String,
    pub change: i64,
    pub owner: String,
    pub creator_id: i64,
    pub parent_id: i64,
    pub sample: i64,
    pub preview_height: i64,
    pub preview_width: i64,
    pub tags: String,
    pub title: String,
    pub has_notes: String,
    pub has_comments: String,
    pub file_url: String,
    pub preview_url: String,
    pub sample_url: String,
    pub sample_height: i64,
    pub sample_width: i64,
    pub status: String,
    pub post_locked: i64,
    pub has_children: String,
}

impl Clone for GelbooruPost {
    fn clone(&self) -> (copy: Self)
        ensures
            copy == *self,
    {
        GelbooruPost {
            id: self.id,
            created_at: self.created_at.clone(),
            score: self.score,
            width: self.width,
            height: self.height,
            md5: self.md5.clone(),
            directory: self.directory.clone(),
            image: self.image.clone(),
            rating: self.rating.clone(),
            source: self.source.clone(),
            change: self.change,
            owner: self.owner.clone(),
            creator_id: self.creator_id,
            parent_id: self.parent_id,
            sample: self.sample,
            preview_height: self.preview_height,
            preview_width: self.preview_width,
            tags: self.tags.clone(),
            title: self.title.clone(),
            has_notes: self.has_notes.clone(),
            has_comments: self.has_comments.clone(),
            file_url: self.file_url.clone(),
            preview_url: self.preview_url.clone(),
            sample_url: self.sample_url.clone(),
            sample_height: self.sample_height,
            sample_width: self.sample_width,
            status: self.status.clone(),
            post_locked: self.post_locked,
            has_children: self.has_children.clone(),
        }
    }
}

/// Whether a stored file of this name is fetched as a video.
pub open spec fn names_video(image: Seq<char>) -> bool {
    ".webm"@.is_suffix_of(image) || ".mp4"@.is_suffix_of(image)
}

impl GelbooruPost {
    /// The name under which the post's file is stored: the final path
    /// segment of its file URL.
    pub open spec fn spec_file_name(&self) -> Seq<char> {
        last_segment(self.file_url@)
    }

    /// The name under which the post's file is stored.
    pub fn file_name(&self) -> (name: String)
        ensures
            name@ == self.spec_file_name(),
    {
        final_segment(self.file_url.as_str())
    }

    /// Whether the post's file is a video, going by the extension of its
    /// image name.
    pub fn is_video(&self) -> (video: bool)
        ensures
            video == names_video(self.image@),
    {
        ends_with(self.image.as_str(), ".webm") || ends_with(self.image.as_str(), ".mp4")
    }
}

} // verus!
