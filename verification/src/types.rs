//! The records the client keeps about subscriptions and episodes.

use vstd::prelude::*;

verus! {

/// A subscribed feed.
#[derive(Debug, Clone)]
pub struct Feed {
    pub id: i64,
    pub url: String,
    pub title: String,
    pub description: String,
    pub image_url: String,
}

/// An episode read from a feed, before it is stored.
#[derive(Debug, Clone)]
pub struct NewEpisode {
    pub feed_id: i64,
    pub guid: String,
    pub title: String,
    pub description: String,
    pub pub_date: String,
    pub duration_secs: Option<i64>,
    pub audio_url: String,
}

} // verus!
