//! The timeline of a client: status reports and articles, and what the page
//! shows of them.

use vstd::prelude::*;
use vstd::string::StringSliceAdditionalSpecFns;
use vstd::utf8::{encode_utf8, is_char_boundary};
use merging_iterator::MergeIter;
use crate::domain::{ArticleKey, SavedArticle, StatusKey};
use crate::text::{
    lemma_text_le_transitive, lemma_text_lt_asymmetric, lemma_text_lt_irreflexive, same_text,
    text_before, text_le, text_lt,
};

verus! {

/// An entry of the timeline.
#[derive(Debug, Clone, PartialEq, Eq, Hash)]
pub enum Update {
    /// An area took a status, and held it until the time given, if that is
    /// known.
    Status { area: String, status: String, until: Option<String> },
    /// An article was published.
    Article(SavedArticle),
}

impl Update {
    /// What a new entry of this sort is announced as: a status report as
    /// such, an article by its kind, and an article of an unknown kind by
    /// the name of that kind.
    pub open spec fn announcement(self) -> Seq<char> {
        match self {
            Update::Status { .. } => "nieuwe status"@,
            Update::Article(article) => {
                if article.kind@ == "hint"@ {
                    "nieuwe hint"@
                } else if article.kind@ == "assignment"@ {
                    "nieuwe opdracht"@
                } else if article.kind@ == "news"@ {
                    "nieuw bericht"@
                } else {
                    article.kind@
                }
            },
        }
    }

    /// The words that announce a new entry of this sort.
    pub fn kind(&self) -> (r: &str)
        ensures
            r@ == self.announcement(),
    {
        match self {
            Update::Status { .. } => "nieuwe status",
            Update::Article(article) => {
                let kind = article.kind.as_str();
                if same_text(kind, "hint") {
                    "nieuwe hint"
                } else if same_text(kind, "assignment") {
                    "nieuwe opdracht"
                } else if same_text(kind, "news") {
                    "nieuw bericht"
                } else {
                    kind
                }
            },
        }
    }
}

/// The word that the timeline shows for a status: the Dutch word for the
/// colours green, orange and red, and any other status as it is.
pub open spec fn status_word(status: Seq<char>) -> Seq<char> {
    if status == "green"@ {
        "groen"@
    } else if status == "orange"@ {
        "oranje"@
    } else if status == "red"@ {
        "rood"@
    } else {
        status
    }
}

/// The word that the timeline shows for a status.
pub fn status_label(status: &str) -> (r: &str)
    ensures
        r@ == status_word(status@),
{
    if same_text(status, "green") {
        "groen"
    } else if same_text(status, "orange") {
        "oranje"
    } else if same_text(status, "red") {
        "rood"
    } else {
        status
    }
}

/// The bytes of the time of day in the bytes of a time: those at the places
/// 11 to 15, where the time is long enough and can be cut there without
/// cutting a character, and nothing else.
pub open spec fn short_time_bytes(time: Seq<u8>) -> Seq<u8> {
    if time.len() >= 16 && is_char_boundary(time, 11) && is_char_boundary(time, 16) {
        time.subrange(11, 16)
    } else {
        Seq::empty()
    }
}

/// The time of day that the timeline shows for an entry: hours and minutes,
/// cut out of the time of the entry, or nothing where the time cannot be cut
/// there.
pub fn short_time(time: &str) -> (r: &str)
    ensures
        encode_utf8(r@) == short_time_bytes(encode_utf8(time@)),
{
    let ghost bytes = encode_utf8(time@);
    proof {
        vstd::utf8::encode_utf8_valid_utf8(time@);
    }
    if time.as_bytes().len() >= 16 && time.is_char_boundary(11) && time.is_char_boundary(16) {
        let (head, _) = time.split_at(16);
        proof {
            let cut = head.spec_bytes();
            assert(cut =~= bytes.subrange(0, 16));
            vstd::utf8::valid_utf8_split(bytes, 16);
            vstd::utf8::encode_utf8_valid_utf8(head@);
            vstd::utf8::is_char_boundary_iff_not_is_continuation_byte(bytes, 11);
            vstd::utf8::is_char_boundary_iff_not_is_continuation_byte(cut, 11);
            assert(cut[11] == bytes[11]);
        }
        let (_, part) = head.split_at(11);
        assert(part.spec_bytes() =~= bytes.subrange(11, 16));
        part
    } else {
        proof {
            reveal_strlit("");
            assert(encode_utf8(""@) =~= Seq::<u8>::empty());
        }
        ""
    }
}

/// Which parts of the page are hidden.
#[derive(Debug, Clone, Copy, PartialEq, Eq, Structural)]
pub struct Layout {
    pub page_hidden: bool,
    pub map_hidden: bool,
    pub panel_column_hidden: bool,
}

/// The layout that shows the map and the panels and hides the article page.
pub fn reset_page() -> (r: Layout)
    ensures
        r == (Layout { page_hidden: true, map_hidden: false, panel_column_hidden: false }),
{
    Layout { page_hidden: true, map_hidden: false, panel_column_hidden: false }
}

/// The layout that shows the article page and hides the map and the panels.
pub fn update_page() -> (r: Layout)
    ensures
        r == (Layout { page_hidden: false, map_hidden: true, panel_column_hidden: true }),
{
    Layout { page_hidden: false, map_hidden: true, panel_column_hidden: true }
}

/// An entry of the timeline with its time.
pub type Dated = (String, Update);

/// Whether the entry `a` is dated strictly before the entry `b`.
pub fn earlier(a: &Dated, b: &Dated) -> (r: bool)
    ensures
        r == text_lt(a.0@, b.0@),
{
    text_before(a.0.as_str(), b.0.as_str())
}

/// Two runs of entries merged into one: at each step the head of the left
/// run goes first if it is dated strictly before the head of the right run,
/// else the head of the right run goes first.
pub open spec fn merged(left: Seq<Dated>, right: Seq<Dated>) -> Seq<Dated>
    decreases left.len() + right.len(),
{
    if left.len() == 0 {
        right
    } else if right.len() == 0 {
        left
    } else if text_lt(left[0].0@, right[0].0@) {
        seq![left[0]] + merged(left.drop_first(), right)
    } else {
        seq![right[0]] + merged(left, right.drop_first())
    }
}

/// Merges two runs of entries by time.
///
/// Wraps `MergeIter::with_custom_ordering` with `earlier` as the ordering,
/// and collects what the iterator yields. The iterator looks at the heads of
/// both runs, yields the left head where the ordering puts it first and the
/// right head where not, and yields the rest of one run when the other is
/// used up: that is `merged`.
#[verifier::external_body]
fn merge_by_time(left: Vec<Dated>, right: Vec<Dated>) -> (r: Vec<Dated>)
    ensures
        r@ == merged(left@, right@),
{
    MergeIter::with_custom_ordering(left, right, earlier).collect()
}

/// Whether the timeline shows an article: hints always, the rest only where
/// everything is asked for.
pub open spec fn shows_article(article: SavedArticle, everything: bool) -> bool {
    everything || article.kind@ == "hint"@
}

/// Whether the timeline shows a status report: only where status reports are
/// asked for, and never a report of "green".
pub open spec fn shows_status(status: Seq<char>, status_check: bool) -> bool {
    status_check && status != "green"@
}

/// The articles that the timeline shows, each dated by its publication, in
/// the order given.
pub open spec fn article_entries(
    articles: Seq<(ArticleKey, SavedArticle)>,
    everything: bool,
) -> Seq<Dated>
    decreases articles.len(),
{
    if articles.len() == 0 {
        Seq::empty()
    } else {
        let rest = article_entries(articles.drop_last(), everything);
        let (key, article) = articles.last();
        if shows_article(article, everything) {
            rest.push((key.publish_at, Update::Article(article)))
        } else {
            rest
        }
    }
}

/// The time of the first report at or after place `from` that is about
/// `area`, if there is one.
pub open spec fn next_report(
    reports: Seq<(StatusKey, String)>,
    from: int,
    area: Seq<char>,
) -> Option<String>
    decreases reports.len() - from,
{
    if from < 0 || from >= reports.len() {
        None
    } else if reports[from].0.fox_name@ == area {
        Some(reports[from].0.date_time)
    } else {
        next_report(reports, from + 1, area)
    }
}

/// The status reports among the first `n` that the timeline shows, each
/// dated by its time and holding until the next report about the same area.
pub open spec fn status_entries(
    reports: Seq<(StatusKey, String)>,
    status_check: bool,
    n: int,
) -> Seq<Dated>
    decreases n,
{
    if n <= 0 {
        Seq::empty()
    } else {
        let rest = status_entries(reports, status_check, n - 1);
        let (key, status) = reports[n - 1];
        if shows_status(status@, status_check) {
            rest.push(
                (
                    key.date_time,
                    Update::Status {
                        area: key.fox_name,
                        status,
                        until: next_report(reports, n, key.fox_name@),
                    },
                ),
            )
        } else {
            rest
        }
    }
}

/// The timeline: the shown articles and the shown status reports merged by
/// time, the latest first.
pub open spec fn timeline_of(
    articles: Seq<(ArticleKey, SavedArticle)>,
    reports: Seq<(StatusKey, String)>,
    everything: bool,
    status_check: bool,
) -> Seq<Dated> {
    merged(
        article_entries(articles, everything),
        status_entries(reports, status_check, reports.len() as int),
    ).reverse()
}

/// The entries rise by time: none is dated before one that stands earlier.
pub open spec fn rises_by_time(entries: Seq<Dated>) -> bool {
    forall|i: int, j: int|
        0 <= i < j < entries.len() ==> text_le(
            (#[trigger] entries[i]).0@,
            (#[trigger] entries[j]).0@,
        )
}

/// The entries fall by time: the latest first.
pub open spec fn falls_by_time(entries: Seq<Dated>) -> bool {
    forall|i: int, j: int|
        0 <= i < j < entries.len() ==> text_le(
            (#[trigger] entries[j]).0@,
            (#[trigger] entries[i]).0@,
        )
}

/// No entry is dated before `time`.
pub open spec fn none_before(time: Seq<char>, entries: Seq<Dated>) -> bool {
    forall|i: int| 0 <= i < entries.len() ==> text_le(time, (#[trigger] entries[i]).0@)
}

/// No entry is dated after `time`.
pub open spec fn none_after(time: Seq<char>, entries: Seq<Dated>) -> bool {
    forall|i: int| 0 <= i < entries.len() ==> text_le((#[trigger] entries[i]).0@, time)
}

/// A time that is not after any entry of two runs is not after any entry of
/// their merge.
pub proof fn lemma_merged_none_before(time: Seq<char>, left: Seq<Dated>, right: Seq<Dated>)
    requires
        none_before(time, left),
        none_before(time, right),
    ensures
        none_before(time, merged(left, right)),
    decreases left.len() + right.len(),
{
    if left.len() > 0 && right.len() > 0 {
        if text_lt(left[0].0@, right[0].0@) {
            let rest = left.drop_first();
            assert forall|i: int| 0 <= i < rest.len() implies text_le(
                time,
                (#[trigger] rest[i]).0@,
            ) by {}
            lemma_merged_none_before(time, rest, right);
            let tail = merged(rest, right);
            let all = merged(left, right);
            assert forall|i: int| 0 <= i < all.len() implies text_le(
                time,
                (#[trigger] all[i]).0@,
            ) by {}
        } else {
            let rest = right.drop_first();
            assert forall|i: int| 0 <= i < rest.len() implies text_le(
                time,
                (#[trigger] rest[i]).0@,
            ) by {}
            lemma_merged_none_before(time, left, rest);
            let tail = merged(left, rest);
            let all = merged(left, right);
            assert forall|i: int| 0 <= i < all.len() implies text_le(
                time,
                (#[trigger] all[i]).0@,
            ) by {}
        }
    }
}

/// Two runs that each rise by time merge into one run that rises by time.
pub proof fn lemma_merged_rises(left: Seq<Dated>, right: Seq<Dated>)
    requires
        rises_by_time(left),
        rises_by_time(right),
    ensures
        rises_by_time(merged(left, right)),
    decreases left.len() + right.len(),
{
    if left.len() > 0 && right.len() > 0 {
        let all = merged(left, right);
        let head_left = text_lt(left[0].0@, right[0].0@);
        let head = if head_left {
            left[0]
        } else {
            right[0]
        };
        let rest_left = if head_left {
            left.drop_first()
        } else {
            left
        };
        let rest_right = if head_left {
            right
        } else {
            right.drop_first()
        };
        assert(rises_by_time(rest_left)) by {
            if head_left {
                assert forall|i: int, j: int| 0 <= i < j < rest_left.len() implies text_le(
                    (#[trigger] rest_left[i]).0@,
                    (#[trigger] rest_left[j]).0@,
                ) by {}
            }
        }
        assert(rises_by_time(rest_right)) by {
            if !head_left {
                assert forall|i: int, j: int| 0 <= i < j < rest_right.len() implies text_le(
                    (#[trigger] rest_right[i]).0@,
                    (#[trigger] rest_right[j]).0@,
                ) by {}
            }
        }
        lemma_merged_rises(rest_left, rest_right);
        assert(none_before(head.0@, rest_left)) by {
            assert forall|i: int| 0 <= i < rest_left.len() implies text_le(
                head.0@,
                (#[trigger] rest_left[i]).0@,
            ) by {
                if !head_left {
                    lemma_text_lt_irreflexive(left[0].0@);
                    if i > 0 {
                        lemma_text_le_transitive(right[0].0@, left[0].0@, left[i].0@);
                    }
                }
            }
        }
        assert(none_before(head.0@, rest_right)) by {
            assert forall|i: int| 0 <= i < rest_right.len() implies text_le(
                head.0@,
                (#[trigger] rest_right[i]).0@,
            ) by {
                if head_left {
                    lemma_text_lt_asymmetric(left[0].0@, right[0].0@);
                    lemma_text_lt_irreflexive(right[0].0@);
                    if i > 0 {
                        lemma_text_le_transitive(left[0].0@, right[0].0@, right[i].0@);
                    }
                }
            }
        }
        lemma_merged_none_before(head.0@, rest_left, rest_right);
        assert forall|i: int, j: int| 0 <= i < j < all.len() implies text_le(
            (#[trigger] all[i]).0@,
            (#[trigger] all[j]).0@,
        ) by {}
    }
}

/// The shown articles are dated no later than the latest article.
proof fn lemma_article_entries_none_after(
    time: Seq<char>,
    articles: Seq<(ArticleKey, SavedArticle)>,
    everything: bool,
)
    requires
        forall|i: int| 0 <= i < articles.len() ==> text_le(
            (#[trigger] articles[i]).0.publish_at@,
            time,
        ),
    ensures
        none_after(time, article_entries(articles, everything)),
    decreases articles.len(),
{
    if articles.len() > 0 {
        let fewer = articles.drop_last();
        assert forall|i: int| 0 <= i < fewer.len() implies text_le(
            (#[trigger] fewer[i]).0.publish_at@,
            time,
        ) by {}
        lemma_article_entries_none_after(time, fewer, everything);
    }
}

/// Articles that are given in the order of their publication are shown in
/// that order.
pub proof fn lemma_article_entries_rise(
    articles: Seq<(ArticleKey, SavedArticle)>,
    everything: bool,
)
    requires
        forall|i: int, j: int|
            0 <= i < j < articles.len() ==> text_le(
                (#[trigger] articles[i]).0.publish_at@,
                (#[trigger] articles[j]).0.publish_at@,
            ),
    ensures
        rises_by_time(article_entries(articles, everything)),
    decreases articles.len(),
{
    if articles.len() > 0 {
        let fewer = articles.drop_last();
        let last = articles[articles.len() - 1];
        assert forall|i: int, j: int| 0 <= i < j < fewer.len() implies text_le(
            (#[trigger] fewer[i]).0.publish_at@,
            (#[trigger] fewer[j]).0.publish_at@,
        ) by {}
        lemma_article_entries_rise(fewer, everything);
        assert forall|i: int| 0 <= i < fewer.len() implies text_le(
            (#[trigger] fewer[i]).0.publish_at@,
            last.0.publish_at@,
        ) by {}
        lemma_article_entries_none_after(last.0.publish_at@, fewer, everything);
    }
}

/// The shown reports among the first `n` are dated no later than `time`,
/// where none of those reports is.
proof fn lemma_status_entries_none_after(
    time: Seq<char>,
    reports: Seq<(StatusKey, String)>,
    status_check: bool,
    n: int,
)
    requires
        0 <= n <= reports.len(),
        forall|i: int| 0 <= i < n ==> text_le((#[trigger] reports[i]).0.date_time@, time),
    ensures
        none_after(time, status_entries(reports, status_check, n)),
    decreases n,
{
    if n > 0 {
        lemma_status_entries_none_after(time, reports, status_check, n - 1);
    }
}

/// Status reports that are given in the order of time are shown in that
/// order.
pub proof fn lemma_status_entries_rise(
    reports: Seq<(StatusKey, String)>,
    status_check: bool,
    n: int,
)
    requires
        0 <= n <= reports.len(),
        forall|i: int, j: int|
            0 <= i < j < reports.len() ==> text_le(
                (#[trigger] reports[i]).0.date_time@,
                (#[trigger] reports[j]).0.date_time@,
            ),
    ensures
        rises_by_time(status_entries(reports, status_check, n)),
    decreases n,
{
    if n > 0 {
        lemma_status_entries_rise(reports, status_check, n - 1);
        lemma_status_entries_none_after(
            reports[n - 1].0.date_time@,
            reports,
            status_check,
            n - 1,
        );
    }
}

/// The timeline is in the order of time, the latest entry first, where the
/// articles are given in the order of their publication and the status
/// reports in the order of their time, as the copies of the two topics hold
/// them.
pub proof fn lemma_timeline_falls_by_time(
    articles: Seq<(ArticleKey, SavedArticle)>,
    reports: Seq<(StatusKey, String)>,
    everything: bool,
    status_check: bool,
)
    requires
        forall|i: int, j: int|
            0 <= i < j < articles.len() ==> text_le(
                (#[trigger] articles[i]).0.publish_at@,
                (#[trigger] articles[j]).0.publish_at@,
            ),
        forall|i: int, j: int|
            0 <= i < j < reports.len() ==> text_le(
                (#[trigger] reports[i]).0.date_time@,
                (#[trigger] reports[j]).0.date_time@,
            ),
    ensures
        falls_by_time(timeline_of(articles, reports, everything, status_check)),
{
    let left = article_entries(articles, everything);
    let right = status_entries(reports, status_check, reports.len() as int);
    lemma_article_entries_rise(articles, everything);
    lemma_status_entries_rise(reports, status_check, reports.len() as int);
    lemma_merged_rises(left, right);
    let rising = merged(left, right);
    let falling = rising.reverse();
    assert forall|i: int, j: int| 0 <= i < j < falling.len() implies text_le(
        (#[trigger] falling[j]).0@,
        (#[trigger] falling[i]).0@,
    ) by {}
}

/// The articles that the timeline shows.
fn shown_articles(articles: &Vec<(ArticleKey, SavedArticle)>, everything: bool) -> (r: Vec<Dated>)
    ensures
        r@ == article_entries(articles@, everything),
{
    let mut r: Vec<Dated> = Vec::new();
    let mut i: usize = 0;
    while i < articles.len()
        invariant
            i <= articles.len(),
            r@ == article_entries(articles@.take(i as int), everything),
        decreases articles.len() - i,
    {
        assert(articles@.take(i + 1).drop_last() =~= articles@.take(i as int));
        let article = &articles[i].1;
        if everything || same_text(article.kind.as_str(), "hint") {
            r.push((articles[i].0.publish_at.clone(), Update::Article(article.duplicate())));
        }
        i = i + 1;
    }
    assert(articles@.take(articles.len() as int) =~= articles@);
    r
}

/// The time of the first report from place `from` on that is about `area`.
fn find_next_report(reports: &Vec<(StatusKey, String)>, from: usize, area: &String) -> (r: Option<
    String,
>)
    requires
        from <= reports.len(),
    ensures
        r == next_report(reports@, from as int, area@),
{
    let mut j: usize = from;
    while j < reports.len()
        invariant
            from <= j <= reports.len(),
            next_report(reports@, from as int, area@) == next_report(reports@, j as int, area@),
        decreases reports.len() - j,
    {
        if reports[j].0.fox_name == *area {
            return Some(reports[j].0.date_time.clone());
        }
        j = j + 1;
    }
    None
}

/// The status reports that the timeline shows.
fn shown_reports(reports: &Vec<(StatusKey, String)>, status_check: bool) -> (r: Vec<Dated>)
    ensures
        r@ == status_entries(reports@, status_check, reports.len() as int),
{
    let mut r: Vec<Dated> = Vec::new();
    let mut i: usize = 0;
    while i < reports.len()
        invariant
            i <= reports.len(),
            r@ == status_entries(reports@, status_check, i as int),
        decreases reports.len() - i,
    {
        let key = &reports[i].0;
        let status = &reports[i].1;
        if status_check && !same_text(status.as_str(), "green") {
            let until = find_next_report(reports, i + 1, &key.fox_name);
            r.push(
                (
                    key.date_time.clone(),
                    Update::Status {
                        area: key.fox_name.clone(),
                        status: status.clone(),
                        until,
                    },
                ),
            );
        }
        i = i + 1;
    }
    r
}

/// The entries of `entries` in reverse order.
fn reversed(entries: Vec<Dated>) -> (r: Vec<Dated>)
    ensures
        r@ == entries@.reverse(),
{
    let mut entries = entries;
    let ghost all = entries@;
    let mut r: Vec<Dated> = Vec::new();
    while entries.len() > 0
        invariant
            entries@.len() + r@.len() == all.len(),
            entries@ == all.take(entries@.len() as int),
            forall|i: int| 0 <= i < r@.len() ==> r@[i] == all[all.len() - 1 - i],
        decreases entries.len(),
    {
        let last = entries.pop().unwrap();
        r.push(last);
    }
    r
}

/// The timeline of a client, the latest entry first. `articles` and
/// `reports` are what the client's copies of the two topics hold, in key
/// order; `everything` asks for all articles and not only the hints,
/// `status_check` for the status reports.
pub fn timeline(
    articles: &Vec<(ArticleKey, SavedArticle)>,
    reports: &Vec<(StatusKey, String)>,
    everything: bool,
    status_check: bool,
) -> (r: Vec<Dated>)
    ensures
        r@ == timeline_of(articles@, reports@, everything, status_check),
{
    let left = shown_articles(articles, everything);
    let right = shown_reports(reports, status_check);
    reversed(merge_by_time(left, right))
}

} // verus!
