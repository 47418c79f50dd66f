//! News: articles, the threads that tie follow-up reports together, and the
//! queries the player runs over them (search by date, subject and kind; the
//! highlights of a period).

use vstd::prelude::*;

use crate::calendar::Date;
use crate::ids::{Subject, ThreadId};
use crate::order::{
    ids_distinct, lemma_filter_keeps_ids_distinct, lemma_ranked_is_sorted_permutation,
    lemma_ranked_keeps_ids_distinct, ranked, ranks_before, sort_ranked,
};
use crate::text::TextTable;

verus! {

#[derive(Clone, Copy, PartialEq, Eq, Debug, Structural)]
pub enum ArticleKind {
    /// The effect of a policy.
    Policy,
    /// The progress of a project.
    Project,
    /// A player's growth, transfer or retirement.
    Person,
    /// Economic and living troubles.
    Economy,
    /// Results of the cup.
    Cup,
    /// Local topics.
    Local,
    /// Trivial everyday news.
    Trivial,
    /// The budget session.
    Budget,
}

#[derive(Clone, Debug)]
pub struct Article {
    pub date: Date,
    pub kind: ArticleKind,
    pub headline: String,
    pub body: String,
    /// Where the headline leads.
    pub subjects: Vec<Subject>,
    /// The thread of follow-up reports this article belongs to.
    pub thread: Option<ThreadId>,
    /// Importance; the highlights of a period are chosen by it.
    pub weight: u8,
    pub pinned: bool,
    /// The breakdown that explains why this happened.
    pub because: Vec<String>,
    /// Policies offered as remedies.
    pub remedies: Vec<String>,
}

/// A thread: the reports on one topic, followed as a single line.
#[derive(Clone, Debug)]
pub struct Thread {
    pub id: ThreadId,
    pub topic: Subject,
    pub label: String,
    pub opened: Date,
    pub closed: Option<Date>,
    /// Indices of the thread's articles in the log.
    pub articles: Vec<u32>,
}

#[derive(Clone, Debug)]
pub struct NewsLog {
    pub articles: Vec<Article>,
    pub threads: Vec<Thread>,
}

/// `j` is the first thread whose id is `id`.
pub open spec fn first_with_id(threads: Seq<Thread>, id: ThreadId, j: int) -> bool {
    &&& 0 <= j < threads.len()
    &&& threads[j].id == id
    &&& forall|k: int| 0 <= k < j ==> (#[trigger] threads[k]).id != id
}

/// `j` is the first thread on `topic` that is still open.
pub open spec fn first_open_on(threads: Seq<Thread>, topic: Subject, j: int) -> bool {
    &&& 0 <= j < threads.len()
    &&& threads[j].topic == topic
    &&& threads[j].closed is None
    &&& forall|k: int|
        0 <= k < j ==> !((#[trigger] threads[k]).topic == topic && threads[k].closed is None)
}

/// `b` is `a` with one more article index, `idx`.
pub open spec fn appended(a: Thread, b: Thread, idx: u32) -> bool {
    &&& b.id == a.id
    &&& b.topic == a.topic
    &&& b.label == a.label
    &&& b.opened == a.opened
    &&& b.closed == a.closed
    &&& b.articles@ == a.articles@.push(idx)
}

/// `b` is `a` closed on `date`.
pub open spec fn closed_on(a: Thread, b: Thread, date: Date) -> bool {
    &&& b.id == a.id
    &&& b.topic == a.topic
    &&& b.label == a.label
    &&& b.opened == a.opened
    &&& b.closed == Some(date)
    &&& b.articles@ == a.articles@
}

/// Some thread on `topic` is still open.
pub open spec fn has_open_on(threads: Seq<Thread>, topic: Subject) -> bool {
    exists|k: int|
        0 <= k < threads.len() && (#[trigger] threads[k]).topic == topic && threads[k].closed is None
}

/// What opening a thread on `topic` does: with a thread open on the topic,
/// the first such thread's id comes back and nothing changes; otherwise a
/// new, empty, open thread with the next id is added at the end.
pub open spec fn opened(
    before: Seq<Thread>,
    topic: Subject,
    label: String,
    date: Date,
    id: ThreadId,
    after: Seq<Thread>,
) -> bool {
    &&& forall|j: int| #[trigger]
        first_open_on(before, topic, j) ==> id == before[j].id && after == before
    &&& !has_open_on(before, topic) ==> {
        &&& id == ThreadId(before.len() as u16)
        &&& after.len() == before.len() + 1
        &&& after.drop_last() == before
        &&& after.last().id == id
        &&& after.last().topic == topic
        &&& after.last().label == label
        &&& after.last().opened == date
        &&& after.last().closed is None
        &&& after.last().articles@.len() == 0
    }
}

/// What closing the thread `id` on `date` does: the first thread with that
/// id is closed, the others stay as they were.
pub open spec fn closed_by(before: Seq<Thread>, id: ThreadId, date: Date, after: Seq<Thread>) -> bool {
    &&& after.len() == before.len()
    &&& forall|j: int|
        0 <= j < before.len() ==> {
            if first_with_id(before, id, j) {
                closed_on(before[j], #[trigger] after[j], date)
            } else {
                after[j] == before[j]
            }
        }
}

/// The articles a search keeps: within the optional date bounds, and of the
/// given kind and about the given subject when those are given.
pub open spec fn search_keeps(
    a: Article,
    from: Option<Date>,
    to: Option<Date>,
    kind: Option<ArticleKind>,
    subject: Option<Subject>,
) -> bool {
    &&& from matches Some(d) ==> d.spec_on_or_before(a.date)
    &&& to matches Some(d) ==> a.date.spec_on_or_before(d)
    &&& kind matches Some(k) ==> a.kind == k
    &&& subject matches Some(s) ==> a.subjects@.contains(s)
}

/// The articles a period's highlights keep: dated within `from..=to`, and
/// weighty enough or pinned.
pub open spec fn highlight_keeps(a: Article, from: Date, to: Date, min_weight: u8) -> bool {
    &&& from.spec_on_or_before(a.date)
    &&& a.date.spec_on_or_before(to)
    &&& (a.weight >= min_weight || a.pinned)
}

/// Ranking key of a highlight: the heavier first, then the earlier.
pub open spec fn highlight_key(a: Article) -> u64 {
    (a.weight as u64 * 0x1_0000_0000 + (0xFFFF_FFFF - (a.date.year as u64 * 0x1_0000
        + a.date.doy as u64))) as u64
}

/// Each article keyed for the highlights and tagged with its index.
pub open spec fn keyed_articles(articles: Seq<Article>) -> Seq<(u64, u64)> {
    Seq::new(articles.len(), |i: int| (highlight_key(articles[i]), i as u64))
}

/// The highlights of `from..=to`, as (key, index) pairs in the order shown:
/// by weight (heavier first), then date (earlier first), then position in the log.
pub open spec fn highlight_order(articles: Seq<Article>, from: Date, to: Date, min_weight: u8) -> Seq<
    (u64, u64),
> {
    ranked(
        keyed_articles(articles).filter(
            |p: (u64, u64)| highlight_keeps(articles[p.1 as int], from, to, min_weight),
        ),
    )
}

fn contains_subject(v: &Vec<Subject>, s: Subject) -> (b: bool)
    ensures
        b == v@.contains(s),
{
    let mut i: usize = 0;
    while i < v.len()
        invariant
            i <= v@.len(),
            forall|k: int| 0 <= k < i ==> v@[k] != s,
        decreases v@.len() - i,
    {
        if v[i] == s {
            return true;
        }
        i = i + 1;
    }
    false
}

impl NewsLog {
    pub fn new() -> (log: NewsLog)
        ensures
            log.articles@.len() == 0,
            log.threads@.len() == 0,
    {
        NewsLog { articles: Vec::new(), threads: Vec::new() }
    }

    /// Index of the first thread with id `id`.
    fn find_thread(&self, id: ThreadId) -> (r: Option<usize>)
        ensures
            r matches Some(j) ==> first_with_id(self.threads@, id, j as int),
            r is None ==> forall|k: int|
                0 <= k < self.threads@.len() ==> (#[trigger] self.threads@[k]).id != id,
    {
        let mut j: usize = 0;
        while j < self.threads.len()
            invariant
                j <= self.threads@.len(),
                forall|k: int| 0 <= k < j ==> (#[trigger] self.threads@[k]).id != id,
            decreases self.threads@.len() - j,
        {
            if self.threads[j].id == id {
                return Some(j);
            }
            j = j + 1;
        }
        None
    }

    /// Adds an article and files it under its thread (the first thread with
    /// that id); returns the article's index.
    pub fn push(&mut self, article: Article) -> (idx: u32)
        ensures
            idx == old(self).articles@.len() as u32,
            final(self).articles@ == old(self).articles@.push(article),
            final(self).threads@.len() == old(self).threads@.len(),
            forall|j: int|
                0 <= j < old(self).threads@.len() ==> {
                    if article.thread matches Some(tid) && first_with_id(
                        old(self).threads@,
                        tid,
                        j,
                    ) {
                        appended(old(self).threads@[j], #[trigger] final(self).threads@[j], idx)
                    } else {
                        final(self).threads@[j] == old(self).threads@[j]
                    }
                },
    {
        let idx = self.articles.len() as u32;
        if let Some(tid) = article.thread {
            if let Some(j) = self.find_thread(tid) {
                let mut t = self.threads.remove(j);
                t.articles.push(idx);
                self.threads.insert(j, t);
                proof {
                    assert forall|k: int| 0 <= k < self.threads@.len() && k != j implies 
                        self.threads@[k] == old(self).threads@[k] by {}
                }
            }
        }
        self.articles.push(article);
        idx
    }

    /// Opens a thread on `topic`, or returns the one already open on it.
    pub fn open_thread(&mut self, topic: Subject, label: String, date: Date) -> (id: ThreadId)
        ensures
            final(self).articles@ == old(self).articles@,
            opened(old(self).threads@, topic, label, date, id, final(self).threads@),
    {
        let mut j: usize = 0;
        while j < self.threads.len()
            invariant
                self.threads@ == old(self).threads@,
                self.articles@ == old(self).articles@,
                j <= self.threads@.len(),
                forall|k: int|
                    0 <= k < j ==> !((#[trigger] self.threads@[k]).topic == topic
                        && self.threads@[k].closed is None),
            decreases self.threads@.len() - j,
        {
            if self.threads[j].topic == topic && self.threads[j].closed.is_none() {
                let id = self.threads[j].id;
                proof {
                    assert(first_open_on(self.threads@, topic, j as int));
                    assert forall|k: int| #[trigger]
                        first_open_on(old(self).threads@, topic, k) implies k == j by {
                        if k < j {
                        } else if k > j {
                            assert(!(old(self).threads@[j as int].topic == topic
                                && old(self).threads@[j as int].closed is None));
                        }
                    }
                }
                return id;
            }
            j = j + 1;
        }
        let id = ThreadId(self.threads.len() as u16);
        self.threads.push(
            Thread { id, topic, label, opened: date, closed: None, articles: Vec::new() },
        );
        proof {
            assert(self.threads@.drop_last() == old(self).threads@);
            assert forall|k: int| #[trigger] first_open_on(old(self).threads@, topic, k) implies false by {
                assert(!(old(self).threads@[k].topic == topic && old(self).threads@[k].closed is None));
            }
        }
        id
    }

    /// Closes the first thread with id `id` on `date`.
    pub fn close_thread(&mut self, id: ThreadId, date: Date)
        ensures
            final(self).articles@ == old(self).articles@,
            closed_by(old(self).threads@, id, date, final(self).threads@),
    {
        if let Some(j) = self.find_thread(id) {
            let mut t = self.threads.remove(j);
            t.closed = Some(date);
            self.threads.insert(j, t);
            proof {
                assert forall|k: int| 0 <= k < self.threads@.len() && k != j implies 
                    self.threads@[k] == old(self).threads@[k] by {}
                assert forall|k: int| 0 <= k < self.threads@.len() && k != j implies 
                    !first_with_id(old(self).threads@, id, k) by {}
            }
        }
    }

    /// The first thread with id `id`.
    pub fn thread_of(&self, id: ThreadId) -> (r: Option<&Thread>)
        ensures
            r matches Some(t) ==> exists|j: int|
                first_with_id(self.threads@, id, j) && *t == self.threads@[j],
            r is None ==> forall|k: int|
                0 <= k < self.threads@.len() ==> (#[trigger] self.threads@[k]).id != id,
    {
        match self.find_thread(id) {
            Some(j) => Some(&self.threads[j]),
            None => None,
        }
    }

    /// Pins or unpins the article at `index`; an index past the end changes nothing.
    pub fn set_pinned(&mut self, index: u32, pinned: bool)
        ensures
            final(self).threads@ == old(self).threads@,
            final(self).articles@.len() == old(self).articles@.len(),
            forall|j: int|
                0 <= j < old(self).articles@.len() && j != index ==> final(self).articles@[j]
                    == old(self).articles@[j],
            (index as int) < old(self).articles@.len() ==> {
                let a = old(self).articles@[index as int];
                let b = final(self).articles@[index as int];
                &&& b.pinned == pinned
                &&& b.date == a.date
                &&& b.kind == a.kind
                &&& b.headline == a.headline
                &&& b.body == a.body
                &&& b.subjects == a.subjects
                &&& b.thread == a.thread
                &&& b.weight == a.weight
                &&& b.because == a.because
                &&& b.remedies == a.remedies
            },
    {
        let i = index as usize;
        if i < self.articles.len() {
            let mut a = self.articles.remove(i);
            a.pinned = pinned;
            self.articles.insert(i, a);
            proof {
                assert forall|k: int| 0 <= k < self.articles@.len() && k != i implies 
                    self.articles@[k] == old(self).articles@[k] by {}
            }
        }
    }

    /// Search by date range, kind and subject; absent criteria match everything.
    pub fn search(
        &self,
        from: Option<Date>,
        to: Option<Date>,
        kind: Option<ArticleKind>,
        subject: Option<Subject>,
    ) -> (r: Vec<&Article>)
        ensures
            r@.map_values(|a: &Article| *a) == self.articles@.filter(
                |a: Article| search_keeps(a, from, to, kind, subject),
            ),
    {
        let ghost pred = |a: Article| search_keeps(a, from, to, kind, subject);
        let mut r: Vec<&Article> = Vec::new();
        let n = self.articles.len();
        let mut i: usize = 0;
        proof {
            reveal(Seq::filter);
            assert(self.articles@.take(0).filter(pred) =~= Seq::<Article>::empty());
            assert(r@.map_values(|a: &Article| *a) =~= Seq::<Article>::empty());
        }
        while i < n
            invariant
                n == self.articles@.len(),
                i <= n,
                pred == (|a: Article| search_keeps(a, from, to, kind, subject)),
                r@.map_values(|a: &Article| *a) == self.articles@.take(i as int).filter(pred),
            decreases n - i,
        {
            let a = &self.articles[i];
            let keep = (match from {
                Some(d) => d.on_or_before(a.date),
                None => true,
            }) && (match to {
                Some(d) => a.date.on_or_before(d),
                None => true,
            }) && (match kind {
                Some(k) => a.kind == k,
                None => true,
            }) && (match subject {
                Some(s) => contains_subject(&a.subjects, s),
                None => true,
            });
            proof {
                reveal(Seq::filter);
                assert(self.articles@.take(i + 1).drop_last() == self.articles@.take(i as int));
                assert(self.articles@.take(i + 1).last() == self.articles@[i as int]);
                assert(keep == pred(*a));
            }
            if keep {
                let ghost before = r@;
                r.push(a);
                proof {
                    assert(r@.map_values(|a: &Article| *a) =~= before.map_values(
                        |a: &Article| *a,
                    ).push(*a));
                }
            }
            i = i + 1;
        }
        proof {
            assert(self.articles@.take(n as int) == self.articles@);
        }
        r
    }

    /// The highlights of `from..=to`: articles of at least `min_weight`, or
    /// pinned, heaviest first, then earliest, then in log order.
    pub fn highlights(&self, from: Date, to: Date, min_weight: u8) -> (r: Vec<&Article>)
        ensures
            r@.len() == highlight_order(self.articles@, from, to, min_weight).len(),
            forall|k: int|
                0 <= k < r@.len() ==> *r@[k] == self.articles@[highlight_order(
                    self.articles@,
                    from,
                    to,
                    min_weight,
                )[k].1 as int],
    {
        let ghost arts = self.articles@;
        let ghost pred = |p: (u64, u64)| highlight_keeps(arts[p.1 as int], from, to, min_weight);
        let n = self.articles.len();
        let mut keyed: Vec<(u64, u64)> = Vec::new();
        let mut i: usize = 0;
        proof {
            reveal(Seq::filter);
            assert(keyed_articles(arts).take(0).filter(pred) =~= Seq::<(u64, u64)>::empty());
        }
        while i < n
            invariant
                n == arts.len(),
                arts == self.articles@,
                i <= n,
                pred == (|p: (u64, u64)| highlight_keeps(arts[p.1 as int], from, to, min_weight)),
                keyed@ == keyed_articles(arts).take(i as int).filter(pred),
                forall|k: int| 0 <= k < keyed@.len() ==> (#[trigger] keyed@[k]).1 < n,
            decreases n - i,
        {
            let a = &self.articles[i];
            let keep = from.on_or_before(a.date) && a.date.on_or_before(to) && (a.weight
                >= min_weight || a.pinned);
            let key: u64 = (a.weight as u64) * 0x1_0000_0000 + (0xFFFF_FFFF - ((a.date.year as u64)
                * 0x1_0000 + a.date.doy as u64));
            proof {
                reveal(Seq::filter);
                let ks = keyed_articles(arts);
                assert(ks.take(i + 1).drop_last() == ks.take(i as int));
                assert(ks.take(i + 1).last() == ks[i as int]);
                assert(ks[i as int] == (key, i as u64));
                assert(keep == pred((key, i as u64)));
            }
            if keep {
                keyed.push((key, i as u64));
            }
            i = i + 1;
        }
        proof {
            assert(keyed_articles(arts).take(n as int) == keyed_articles(arts));
        }
        let order = sort_ranked(&keyed);
        proof {
            assert forall|k: int| 0 <= k < order@.len() implies (#[trigger] order@[k]).1 < n by {
                broadcast use vstd::seq_lib::group_to_multiset_ensures;

                assert(order@.contains(order@[k]));
                assert(order@.to_multiset().count(order@[k]) > 0);
                assert(keyed@.to_multiset().count(order@[k]) > 0);
                assert(keyed@.contains(order@[k]));
            }
        }
        let mut r: Vec<&Article> = Vec::new();
        let mut k: usize = 0;
        while k < order.len()
            invariant
                n == self.articles@.len(),
                order@ == highlight_order(self.articles@, from, to, min_weight),
                forall|j: int| 0 <= j < order@.len() ==> (#[trigger] order@[j]).1 < n,
                k <= order@.len(),
                r@.len() == k,
                forall|j: int|
                    0 <= j < k ==> *r@[j] == self.articles@[(#[trigger] order@[j]).1 as int],
            decreases order@.len() - k,
        {
            let idx = order[k].1 as usize;
            r.push(&self.articles[idx]);
            k = k + 1;
        }
        r
    }
}

/// Reports on one topic form a single line: once `open_thread` has opened
/// a new thread on a topic, that thread is the first open one on the topic,
/// so opening the topic again returns the same thread until it is closed.
pub proof fn lemma_new_thread_is_reused(before: Seq<Thread>, fresh: Thread)
    requires
        forall|k: int|
            0 <= k < before.len() ==> !((#[trigger] before[k]).topic == fresh.topic
                && before[k].closed is None),
        fresh.closed is None,
    ensures
        first_open_on(before.push(fresh), fresh.topic, before.len() as int),
{
    let after = before.push(fresh);
    assert forall|k: int| 0 <= k < before.len() implies !((#[trigger] after[k]).topic
        == fresh.topic && after[k].closed is None) by {
        assert(after[k] == before[k]);
    }
}

/// Closing a thread lets the next report on its topic open a fresh one:
/// a closed thread is never the first open thread on its topic.
pub proof fn lemma_closed_thread_not_reused(threads: Seq<Thread>, j: int, topic: Subject)
    requires
        0 <= j < threads.len(),
        threads[j].closed is Some,
    ensures
        !first_open_on(threads, topic, j),
{
}

/// Thread ids are their positions in the log, within 16 bits.
pub open spec fn threads_indexed(threads: Seq<Thread>) -> bool {
    &&& threads.len() <= 0x1_0000
    &&& forall|j: int| 0 <= j < threads.len() ==> (#[trigger] threads[j]).id == ThreadId(j as u16)
}

/// No topic has two open threads.
pub open spec fn one_open_per_topic(threads: Seq<Thread>) -> bool {
    forall|a: int, b: int|
        0 <= a < b < threads.len() && (#[trigger] threads[a]).closed is None
            && (#[trigger] threads[b]).closed is None ==> threads[a].topic != threads[b].topic
}

/// A topic with an open thread has a first open thread.
proof fn lemma_first_open_exists(threads: Seq<Thread>, topic: Subject)
    requires
        has_open_on(threads, topic),
    ensures
        exists|j: int| first_open_on(threads, topic, j),
    decreases threads.len(),
{
    let rest = threads.drop_last();
    if has_open_on(rest, topic) {
        lemma_first_open_exists(rest, topic);
        let j = choose|j: int| first_open_on(rest, topic, j);
        assert forall|k: int| 0 <= k < j implies !((#[trigger] threads[k]).topic == topic
            && threads[k].closed is None) by {
            assert(threads[k] == rest[k]);
        }
        assert(first_open_on(threads, topic, j));
    } else {
        let j = threads.len() - 1;
        assert forall|k: int| 0 <= k < j implies !((#[trigger] threads[k]).topic == topic
            && threads[k].closed is None) by {
            assert(threads[k] == rest[k]);
        }
        let w = choose|k: int|
            0 <= k < threads.len() && (#[trigger] threads[k]).topic == topic
                && threads[k].closed is None;
        if w < j {
            assert(rest[w] == threads[w]);
        }
        assert(first_open_on(threads, topic, j));
    }
}

/// Opening a thread keeps thread ids equal to their positions and keeps at
/// most one open thread per topic.
pub proof fn lemma_opened_keeps_threads_sound(
    before: Seq<Thread>,
    topic: Subject,
    label: String,
    date: Date,
    id: ThreadId,
    after: Seq<Thread>,
)
    requires
        opened(before, topic, label, date, id, after),
        threads_indexed(before),
        before.len() < 0x1_0000,
        one_open_per_topic(before),
    ensures
        threads_indexed(after),
        one_open_per_topic(after),
{
    if has_open_on(before, topic) {
        lemma_first_open_exists(before, topic);
        let j = choose|j: int| first_open_on(before, topic, j);
        assert(after == before);
    } else {
        assert forall|j: int| 0 <= j < after.len() implies (#[trigger] after[j]).id == ThreadId(
            j as u16,
        ) by {
            if j < before.len() {
                assert(after[j] == before[j]);
            }
        }
        assert forall|a: int, b: int|
            0 <= a < b < after.len() && (#[trigger] after[a]).closed is None
                && (#[trigger] after[b]).closed is None implies after[a].topic != after[b].topic by {
            assert(after[a] == before[a]);
            if b < before.len() {
                assert(after[b] == before[b]);
            } else {
                assert(!(before[a].topic == topic && before[a].closed is None));
            }
        }
    }
}

/// Closing a thread keeps thread ids equal to their positions and keeps at
/// most one open thread per topic.
pub proof fn lemma_closed_keeps_threads_sound(
    before: Seq<Thread>,
    id: ThreadId,
    date: Date,
    after: Seq<Thread>,
)
    requires
        closed_by(before, id, date, after),
        threads_indexed(before),
        one_open_per_topic(before),
    ensures
        threads_indexed(after),
        one_open_per_topic(after),
{
    assert forall|j: int| 0 <= j < after.len() implies (#[trigger] after[j]).id == ThreadId(
        j as u16,
    ) by {
        assert(before[j].id == ThreadId(j as u16));
        if first_with_id(before, id, j) {
            assert(closed_on(before[j], after[j], date));
        } else {
            assert(after[j] == before[j]);
        }
    }
    assert forall|a: int, b: int|
        0 <= a < b < after.len() && (#[trigger] after[a]).closed is None
            && (#[trigger] after[b]).closed is None implies after[a].topic != after[b].topic by {
        if first_with_id(before, id, a) {
            assert(closed_on(before[a], after[a], date));
        } else {
            assert(after[a] == before[a]);
        }
        if first_with_id(before, id, b) {
            assert(closed_on(before[b], after[b], date));
        } else {
            assert(after[b] == before[b]);
        }
        assert(before[a].closed is None && before[b].closed is None);
    }
}

/// Reports on one topic form a single line: opening a topic that was just
/// opened returns the same thread and changes nothing.
pub proof fn lemma_reopen_returns_same_thread(
    t0: Seq<Thread>,
    topic: Subject,
    l1: String,
    d1: Date,
    id1: ThreadId,
    t1: Seq<Thread>,
    l2: String,
    d2: Date,
    id2: ThreadId,
    t2: Seq<Thread>,
)
    requires
        opened(t0, topic, l1, d1, id1, t1),
        opened(t1, topic, l2, d2, id2, t2),
    ensures
        id2 == id1,
        t2 == t1,
{
    if has_open_on(t0, topic) {
        lemma_first_open_exists(t0, topic);
        let j = choose|j: int| first_open_on(t0, topic, j);
        assert(t1 == t0);
        assert(first_open_on(t1, topic, j));
    } else {
        assert(t1 == t0.push(t1.last()));
        lemma_new_thread_is_reused(t0, t1.last());
        assert(first_open_on(t1, topic, t0.len() as int));
    }
}

/// Once the thread of a topic is closed, the next report on the topic opens
/// a fresh thread with the next id, never the closed one.
pub proof fn lemma_reopen_after_close_is_fresh(
    t0: Seq<Thread>,
    topic: Subject,
    l1: String,
    d1: Date,
    id1: ThreadId,
    t1: Seq<Thread>,
    d: Date,
    t2: Seq<Thread>,
    l2: String,
    d2: Date,
    id2: ThreadId,
    t3: Seq<Thread>,
)
    requires
        threads_indexed(t0),
        t0.len() < 0xFFFF,
        one_open_per_topic(t0),
        opened(t0, topic, l1, d1, id1, t1),
        closed_by(t1, id1, d, t2),
        opened(t2, topic, l2, d2, id2, t3),
    ensures
        id2 == ThreadId(t2.len() as u16),
        id2 != id1,
        t3.len() == t2.len() + 1,
        t3.last().topic == topic,
        t3.last().closed is None,
{
    lemma_opened_keeps_threads_sound(t0, topic, l1, d1, id1, t1);
    // the thread returned is the first open one on the topic, at position j
    let j: int = if has_open_on(t0, topic) {
        lemma_first_open_exists(t0, topic);
        let j = choose|j: int| first_open_on(t0, topic, j);
        assert(t1 == t0);
        j
    } else {
        assert(t1 == t0.push(t1.last()));
        lemma_new_thread_is_reused(t0, t1.last());
        t0.len() as int
    };
    assert(first_open_on(t1, topic, j));
    assert(id1 == t1[j].id);
    assert(t1[j].id == ThreadId(j as u16));
    assert(first_with_id(t1, id1, j)) by {
        assert forall|k: int| 0 <= k < j implies (#[trigger] t1[k]).id != id1 by {
            assert(t1[k].id == ThreadId(k as u16));
        }
    }
    // after closing it, no thread on the topic is open
    assert(!has_open_on(t2, topic)) by {
        if has_open_on(t2, topic) {
            let k = choose|k: int|
                0 <= k < t2.len() && (#[trigger] t2[k]).topic == topic && t2[k].closed is None;
            assert(closed_on(t1[j], t2[j], d));
            assert(k != j);
            assert(!first_with_id(t1, id1, k)) by {
                if first_with_id(t1, id1, k) {
                    if k < j {
                    } else {
                        assert(t1[j].id == id1);
                    }
                }
            }
            assert(t2[k] == t1[k]);
            if k < j {
                assert(!(t1[k].topic == topic && t1[k].closed is None));
            } else {
                assert(t1[j].closed is None && t1[k].closed is None);
            }
        }
    }
    assert(j < t1.len());
}

/// The highlight key puts the heavier first and, at equal weight, the
/// earlier date (by year, then day of year) first.
proof fn lemma_highlight_key_order(a: Article, b: Article)
    requires
        highlight_key(a) >= highlight_key(b),
    ensures
        a.weight >= b.weight,
        a.weight == b.weight ==> a.date.spec_on_or_before(b.date),
        a.weight == b.weight && highlight_key(a) == highlight_key(b) ==> a.date == b.date,
{
    let da = a.date.year as int * 0x1_0000 + a.date.doy as int;
    let db = b.date.year as int * 0x1_0000 + b.date.doy as int;
    assert(0 <= da <= 0xFFFF_FFFF);
    assert(0 <= db <= 0xFFFF_FFFF);
    assert(highlight_key(a) == a.weight as int * 0x1_0000_0000 + (0xFFFF_FFFF - da));
    assert(highlight_key(b) == b.weight as int * 0x1_0000_0000 + (0xFFFF_FFFF - db));
    if a.weight < b.weight {
        assert(a.weight as int * 0x1_0000_0000 + 0x1_0000_0000 <= b.weight as int * 0x1_0000_0000);
    }
    if a.weight == b.weight {
        assert(da <= db);
        if a.date.year > b.date.year {
            assert(a.date.year as int * 0x1_0000 >= b.date.year as int * 0x1_0000 + 0x1_0000);
        }
        if a.date.year == b.date.year && highlight_key(a) == highlight_key(b) {
            assert(a.date.doy == b.date.doy);
        }
        if a.date.year < b.date.year && highlight_key(a) == highlight_key(b) {
            assert(a.date.year as int * 0x1_0000 + 0x1_0000 <= b.date.year as int * 0x1_0000);
        }
    }
}

/// The highlights of `from..=to` are the articles dated in that period
/// that weigh at least `min_weight` or are pinned, each once; the heavier
/// come first, at equal weight the earlier date (year first, then day of
/// year), and at equal weight and date the article logged first.
pub proof fn lemma_highlights_order(articles: Seq<Article>, from: Date, to: Date, min_weight: u8)
    requires
        articles.len() <= u64::MAX,
    ensures
        forall|k: int|
            0 <= k < highlight_order(articles, from, to, min_weight).len() ==> {
                let i = (#[trigger] highlight_order(articles, from, to, min_weight)[k]).1 as int;
                &&& i < articles.len()
                &&& from.spec_on_or_before(articles[i].date)
                &&& articles[i].date.spec_on_or_before(to)
                &&& (articles[i].weight >= min_weight || articles[i].pinned)
            },
        forall|i: int|
            0 <= i < articles.len() && from.spec_on_or_before((#[trigger] articles[i]).date)
                && articles[i].date.spec_on_or_before(to) && (articles[i].weight >= min_weight
                || articles[i].pinned) ==> exists|k: int|
                0 <= k < highlight_order(articles, from, to, min_weight).len()
                    && (#[trigger] highlight_order(articles, from, to, min_weight)[k]).1 == i,
        forall|k: int, l: int|
            0 <= k < l < highlight_order(articles, from, to, min_weight).len() ==> {
                let x = #[trigger] highlight_order(articles, from, to, min_weight)[k].1 as int;
                let y = #[trigger] highlight_order(articles, from, to, min_weight)[l].1 as int;
                &&& articles[x].weight >= articles[y].weight
                &&& articles[x].weight == articles[y].weight ==> articles[x].date.spec_on_or_before(
                    articles[y].date,
                )
                &&& articles[x].weight == articles[y].weight && articles[x].date == articles[y].date
                    ==> x < y
            },
{
    broadcast use vstd::seq_lib::group_filter_ensures;

    let keyed = keyed_articles(articles);
    let pred = |p: (u64, u64)| highlight_keeps(articles[p.1 as int], from, to, min_weight);
    let kept = keyed.filter(pred);
    let o = highlight_order(articles, from, to, min_weight);
    assert(o == ranked(kept));
    lemma_ranked_is_sorted_permutation(kept);
    assert(ids_distinct(keyed)) by {
        assert forall|a: int, b: int| 0 <= a < b < keyed.len() implies (#[trigger] keyed[a]).1
            != (#[trigger] keyed[b]).1 by {}
    }
    lemma_filter_keeps_ids_distinct(keyed, pred);
    lemma_ranked_keeps_ids_distinct(kept);
    // every entry of the order is a kept, keyed article
    assert forall|k: int| 0 <= k < o.len() implies {
        &&& (#[trigger] o[k]).1 < articles.len()
        &&& o[k] == (highlight_key(articles[o[k].1 as int]), o[k].1)
        &&& highlight_keeps(articles[o[k].1 as int], from, to, min_weight)
    } by {
        assert(o.contains(o[k]));
        assert(kept.contains(o[k]));
        let m = choose|m: int| 0 <= m < kept.len() && kept[m] == o[k];
        assert(pred(kept[m]));
        keyed.lemma_filter_contains_rev(pred, o[k]);
        let c = choose|c: int| 0 <= c < keyed.len() && keyed[c] == o[k];
        assert(keyed[c] == (highlight_key(articles[c]), c as u64));
    }
    assert forall|i: int|
        0 <= i < articles.len() && from.spec_on_or_before((#[trigger] articles[i]).date)
            && articles[i].date.spec_on_or_before(to) && (articles[i].weight >= min_weight
            || articles[i].pinned) implies exists|k: int|
        0 <= k < o.len() && (#[trigger] o[k]).1 == i by {
        assert(keyed[i] == (highlight_key(articles[i]), i as u64));
        assert(pred(keyed[i]));
        keyed.lemma_filter_contains(pred, i);
        assert(o.contains(keyed[i]));
        let k = choose|k: int| 0 <= k < o.len() && o[k] == keyed[i];
        assert(o[k].1 == i);
    }
    assert forall|k: int, l: int| 0 <= k < l < o.len() implies {
        let x = (#[trigger] o[k]).1 as int;
        let y = (#[trigger] o[l]).1 as int;
        &&& articles[x].weight >= articles[y].weight
        &&& articles[x].weight == articles[y].weight ==> articles[x].date.spec_on_or_before(
            articles[y].date,
        )
        &&& articles[x].weight == articles[y].weight && articles[x].date == articles[y].date
            ==> x < y
    } by {
        let x = o[k].1 as int;
        let y = o[l].1 as int;
        assert(ranks_before(o[k], o[l]));
        assert(o[k].1 != o[l].1);
        lemma_highlight_key_order(articles[x], articles[y]);
    }
}

/// A search without criteria finds every article, in the order of the log.
pub proof fn lemma_search_without_criteria_finds_all(articles: Seq<Article>)
    ensures
        articles.filter(
            |a: Article| search_keeps(a, None, None, None, None),
        ) == articles,
    decreases articles.len(),
{
    reveal(Seq::filter);
    if articles.len() > 0 {
        lemma_search_without_criteria_finds_all(articles.drop_last());
        assert(articles.drop_last().push(articles.last()) == articles);
    }
}

/// Builds articles from the text table.
pub struct Builder<'a> {
    pub text: &'a TextTable,
}

impl<'a> Builder<'a> {
    /// An article whose headline and body are the templates `{key}.headline`
    /// and `{key}.body` filled with `args`; no subjects, thread or notes yet.
    pub fn article(
        &self,
        date: Date,
        kind: ArticleKind,
        key: &str,
        args: &[(&str, &str)],
        weight: u8,
    ) -> (a: Article)
        ensures
            a.date == date,
            a.kind == kind,
            self.text.formats_to(key@ + ".headline"@, args@, a.headline@),
            self.text.formats_to(key@ + ".body"@, args@, a.body@),
            a.subjects@.len() == 0,
            a.thread is None,
            a.weight == weight,
            !a.pinned,
            a.because@.len() == 0,
            a.remedies@.len() == 0,
    {
        let mut hk = String::from_str(key);
        hk.append(".headline");
        let mut bk = String::from_str(key);
        bk.append(".body");
        Article {
            date,
            kind,
            headline: self.text.format(hk.as_str(), args),
            body: self.text.format(bk.as_str(), args),
            subjects: Vec::new(),
            thread: None,
            weight,
            pinned: false,
            because: Vec::new(),
            remedies: Vec::new(),
        }
    }
}

} // verus!
