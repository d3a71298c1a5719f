//! What the server stores of the status reports and articles that it fetches:
//! each under a key that begins with its time, written only where the topic
//! does not hold it yet.

use vstd::prelude::*;
use crate::domain::{ArticleKey, SavedArticle, StatusKey};
use crate::model::ChangeEvent;
use crate::store::Store;
use crate::wire::{
    article_frame, article_key_frame, encode_article, encode_article_key, encode_status_key,
    encode_text, status_key_frame, text_bytes,
};
use crate::Broadcast;

verus! {

/// The status of an area as it was fetched.
#[derive(Debug, Clone, PartialEq, Eq)]
pub struct Area {
    pub name: String,
    pub status: String,
    pub updated_at: String,
}

/// An article as it was fetched.
#[derive(Debug, Clone, PartialEq, Eq)]
pub struct Article {
    pub id: usize,
    pub title: String,
    pub kind: String,
    pub publish_at: String,
    pub content: String,
}

/// What the topic of status reports holds for a report: under the time of
/// the report and the name of the area, the status.
pub open spec fn status_change(area: Area) -> ChangeEvent {
    ChangeEvent {
        key: status_key_frame(area.updated_at@, area.name@),
        value: text_bytes(area.status@),
    }
}

/// What the topic of articles holds for an article: under the time of its
/// publication and its number, its title, kind and content.
pub open spec fn article_change(article: Article) -> ChangeEvent {
    ChangeEvent {
        key: article_key_frame(article.publish_at@, article.id as nat),
        value: article_frame(article.title@, article.kind@, article.content@),
    }
}

/// The key and the value under which the status of an area is stored.
pub fn status_entry(area: &Area) -> (entry: Broadcast)
    ensures
        entry@ == status_change(*area),
{
    let key = StatusKey { date_time: area.updated_at.clone(), fox_name: area.name.clone() };
    Broadcast { key: encode_status_key(&key), value: encode_text(area.status.as_str()) }
}

/// The key and the value under which an article is stored.
pub fn article_entry(article: &Article) -> (entry: Broadcast)
    ensures
        entry@ == article_change(*article),
{
    let key = ArticleKey { publish_at: article.publish_at.clone(), id: article.id };
    let saved = SavedArticle {
        title: article.title.clone(),
        kind: article.kind.clone(),
        content: article.content.clone(),
    };
    Broadcast { key: encode_article_key(&key), value: encode_article(&saved) }
}

/// Stores the status of an area under the time of the report and the name of
/// the area, unless the topic holds just that already, and tells whether it
/// wrote.
pub fn update_single_status(store: &mut Store, area: &Area) -> (written: bool)
    requires
        old(store).wf(),
    ensures
        final(store).wf(),
        final(store)@ == old(store)@.upsert(status_change(*area).key, status_change(*area).value),
        written == old(store)@.upsert_writes(
            status_change(*area).key,
            status_change(*area).value,
        ),
{
    let entry = status_entry(area);
    store.upsert(entry.key, entry.value)
}

/// Stores an article under the time of its publication and its number,
/// unless the topic holds just that already, and tells whether it wrote.
pub fn update_single_article(store: &mut Store, article: &Article) -> (written: bool)
    requires
        old(store).wf(),
    ensures
        final(store).wf(),
        final(store)@ == old(store)@.upsert(
            article_change(*article).key,
            article_change(*article).value,
        ),
        written == old(store)@.upsert_writes(
            article_change(*article).key,
            article_change(*article).value,
        ),
{
    let entry = article_entry(article);
    store.upsert(entry.key, entry.value)
}

} // verus!
