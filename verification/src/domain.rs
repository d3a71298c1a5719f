//! The facts that the topics hold, as the clients read and write them.

use vstd::prelude::*;

verus! {

/// The key of a location: which fox was where, on which day and at what time.
#[derive(Debug, Clone, PartialEq, Eq, PartialOrd, Ord, Hash)]
pub struct FoxKey {
    pub day: String,
    pub time: String,
    pub fox_name: String,
}

/// A location as it was typed in: two coordinates, not yet checked.
#[derive(Debug, Default, Clone, PartialEq, Eq, PartialOrd, Ord, Hash)]
pub struct Fox {
    pub latitude: String,
    pub longitude: String,
}

/// The key of a location within one day.
#[derive(Debug, Clone, PartialEq, Eq, PartialOrd, Ord, Hash)]
pub struct Address {
    pub time: String,
    pub fox_name: String,
}

/// The key of a status report: when an area's status changed. The time comes
/// first, so the reports of all areas are stored in the order of time.
#[derive(Debug, Clone, PartialEq, Eq, PartialOrd, Ord, Hash)]
pub struct StatusKey {
    pub date_time: String,
    pub fox_name: String,
}

/// The key of an article: when it was published, and its number.
#[derive(Debug, Clone, PartialEq, Eq, PartialOrd, Ord, Hash)]
pub struct ArticleKey {
    pub publish_at: String,
    pub id: usize,
}

/// An article as it is stored.
#[derive(Debug, Clone, PartialEq, Eq, PartialOrd, Ord, Hash)]
pub struct SavedArticle {
    pub title: String,
    pub kind: String,
    pub content: String,
}

impl FoxKey {
    /// A copy of this key.
    pub fn duplicate(&self) -> (r: FoxKey)
        ensures
            r == *self,
    {
        FoxKey {
            day: self.day.clone(),
            time: self.time.clone(),
            fox_name: self.fox_name.clone(),
        }
    }
}

impl Fox {
    /// A copy of this location.
    pub fn duplicate(&self) -> (r: Fox)
        ensures
            r == *self,
    {
        Fox { latitude: self.latitude.clone(), longitude: self.longitude.clone() }
    }
}

impl SavedArticle {
    /// A copy of this article.
    pub fn duplicate(&self) -> (r: SavedArticle)
        ensures
            r == *self,
    {
        SavedArticle {
            title: self.title.clone(),
            kind: self.kind.clone(),
            content: self.content.clone(),
        }
    }
}

} // verus!
