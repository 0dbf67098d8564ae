//! The posts of a social media account that the bot passes on.

use crate::text::{after_last, after_last_spec};
use crate::time::Timestamp;
use vstd::prelude::*;

verus! {

/// The id of a post or an account.
#[derive(Debug, Clone, Copy, PartialEq, Eq, PartialOrd, Ord, Hash, Structural)]
pub struct Id(pub u64);

/// What kind of file is attached to a post.
#[derive(Debug, Clone, Copy, PartialEq, Eq, Structural)]
pub enum AttachmentType {
    Image,
    Unknown,
}

/// How the posts are polled: every `interval` seconds, passing on posts that are no older
/// than `max_age` seconds.
#[derive(Debug, Clone, Copy, PartialEq, Eq, Structural)]
pub struct GarygradyConfig {
    pub interval: u64,
    pub max_age: u64,
}

/// The larger of two ids: the id up to which posts have been seen, once a post with the
/// id `seen` has been seen.
pub fn newest(last: Id, seen: Id) -> (id: Id)
    ensures
        id == if seen.0 >= last.0 {
            seen
        } else {
            last
        },
{
    if seen.0 >= last.0 {
        seen
    } else {
        last
    }
}

/// Whether a post is passed on: it is about the event, and it was made no more than
/// `config.max_age` seconds before `now`.
pub fn is_relevant(
    about_event: bool,
    created_at: Timestamp,
    now: Timestamp,
    config: &GarygradyConfig,
) -> (relevant: bool)
    ensures
        relevant == (about_event && created_at@ >= now@ - config.max_age * 1_000_000_000),
{
    about_event && created_at.as_nanos() >= now.as_nanos() - (config.max_age as i128)
        * 1_000_000_000
}

/// Whether an attachment is passed on: only images are.
pub fn is_image(kind: AttachmentType) -> (image: bool)
    ensures
        image == (kind == AttachmentType::Image),
{
    match kind {
        AttachmentType::Image => true,
        AttachmentType::Unknown => false,
    }
}

/// The name of the file at the given path: what stands behind the last slash.
pub fn file_name<'a>(path: &'a str) -> (name: &'a str)
    ensures
        name@ == after_last_spec(path@, '/'),
{
    after_last(path, '/')
}

} // verus!
