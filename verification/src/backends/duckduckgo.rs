//! DuckDuckGo Instant Answer API: free, needs no key, and is always
//! available as the fallback. It returns instant answers (an abstract and
//! related topics), not full web results.

use vstd::prelude::*;
use crate::backends::{rank_score, rank_score_at, url_encode, url_encoded};
use crate::text::{before_first, before_first_seq};
use crate::types::{SearchRequest, SearchResult, SCORE_SCALE};

verus! {

/// The DuckDuckGo backend.
pub struct DuckDuckGoBackend {}

/// A related topic of an instant answer.
pub struct DdgTopic {
    pub text: String,
    pub first_url: String,
}

/// An instant answer.
pub struct DdgAnswer {
    pub abstract_text: String,
    pub abstract_url: String,
    pub abstract_source: String,
    pub heading: String,
    pub related_topics: Vec<DdgTopic>,
}

/// The URL of a DuckDuckGo query.
pub open spec fn ddg_url(query: Seq<char>) -> Seq<char> {
    "https://api.duckduckgo.com/?q="@ + url_encoded(query) + "&format=json&no_html=1&skip_disambig=1"@
}

/// The score of a related topic at position `i` (0.8 down in steps of 0.05).
pub open spec fn topic_score(i: int) -> i64 {
    rank_score(800_000, i)
}

/// `r` is the result made of the abstract of an answer.
pub open spec fn abstract_result(r: SearchResult, a: DdgAnswer) -> bool {
    &&& r.title == a.heading
    &&& r.url == a.abstract_url
    &&& r.snippet == a.abstract_text
    &&& r.source@ == "duckduckgo:"@ + a.abstract_source@
    &&& r.score == SCORE_SCALE
    &&& r.published_date is None
}

/// `r` is the result made of the related topic at position `i`: its text
/// before the first ` - ` as title.
pub open spec fn topic_result(r: SearchResult, t: DdgTopic, i: int) -> bool {
    &&& r.title@ == before_first_seq(t.text@, " - "@)
    &&& r.url == t.first_url
    &&& r.snippet == t.text
    &&& r.source@ == "duckduckgo"@
    &&& r.score == topic_score(i)
    &&& r.published_date is None
}

/// How many results the first `n` related topics contribute, given `start`
/// results before them: a topic with a URL adds one while fewer than
/// `max_results` have been gathered.
pub open spec fn ddg_count(topics: Seq<DdgTopic>, n: int, start: int, max_results: int) -> int
    decreases n,
{
    if n <= 0 {
        start
    } else {
        let before = ddg_count(topics, n - 1, start, max_results);
        if before < max_results && topics[n - 1].first_url@.len() > 0 {
            before + 1
        } else {
            before
        }
    }
}

/// `rs` are the results of an answer: the abstract first (when its text is
/// not empty), then, while fewer than `max_results` results are gathered,
/// each related topic that has a URL.
pub open spec fn ddg_results(rs: Seq<SearchResult>, a: DdgAnswer, max_results: int) -> bool {
    let topics = a.related_topics@;
    let start: int = if a.abstract_text@.len() > 0 {
        1
    } else {
        0
    };
    &&& rs.len() == ddg_count(topics, topics.len() as int, start, max_results)
    &&& (start == 1 ==> abstract_result(rs[0], a))
    &&& forall|i: int|
        0 <= i < topics.len() && ddg_count(topics, i, start, max_results) < max_results
            && topics[i].first_url@.len() > 0 ==> topic_result(
            #[trigger] rs[ddg_count(topics, i, start, max_results)],
            topics[i],
            i,
        )
}

proof fn lemma_ddg_count_monotone(topics: Seq<DdgTopic>, i: int, j: int, start: int, m: int)
    requires
        0 <= i <= j,
    ensures
        ddg_count(topics, i, start, m) <= ddg_count(topics, j, start, m),
    decreases j - i,
{
    if i < j {
        lemma_ddg_count_monotone(topics, i, j - 1, start, m);
    }
}

impl DuckDuckGoBackend {
    /// The backend (no configuration).
    pub fn new() -> (b: DuckDuckGoBackend) {
        DuckDuckGoBackend {  }
    }

    /// The backend's name.
    pub fn name(&self) -> (r: &'static str)
        ensures
            r@ == "duckduckgo"@,
    {
        "duckduckgo"
    }

    /// DuckDuckGo can always be asked.
    pub fn is_available(&self) -> (r: bool)
        ensures
            r,
    {
        true
    }

    /// The price of one query: nothing.
    pub fn cost_per_query(&self) -> (c: u64)
        ensures
            c == 0,
    {
        0
    }

    /// The URL to GET for a request.
    pub fn request_url(&self, request: &SearchRequest) -> (url: String)
        ensures
            url@ == ddg_url(request.query@),
    {
        let mut url = String::from_str("https://api.duckduckgo.com/?q=");
        let q = url_encode(request.query.as_str());
        url.append(q.as_str());
        url.append("&format=json&no_html=1&skip_disambig=1");
        url
    }

    /// The results of an instant answer.
    pub fn results(answer: DdgAnswer, max_results: usize) -> (r: Vec<SearchResult>)
        ensures
            ddg_results(r@, answer, max_results as int),
    {
        let mut r: Vec<SearchResult> = Vec::new();
        let has_abstract = !answer.abstract_text.as_str().is_empty();
        if has_abstract {
            let mut source = String::from_str("duckduckgo:");
            source.append(answer.abstract_source.as_str());
            r.push(
                SearchResult {
                    title: answer.heading.clone(),
                    url: answer.abstract_url.clone(),
                    snippet: answer.abstract_text.clone(),
                    source,
                    score: 1_000_000,
                    published_date: None,
                },
            );
        }
        let ghost start: int = if has_abstract {
            1
        } else {
            0
        };
        let ghost topics = answer.related_topics@;
        let mut i: usize = 0;
        proof {
            reveal_strlit(" - ");
        }
        while i < answer.related_topics.len()
            invariant
                i <= topics.len(),
                topics == answer.related_topics@,
                r@.len() == ddg_count(topics, i as int, start, max_results as int),
                start == 1 ==> abstract_result(r@[0], answer),
                start == (if answer.abstract_text@.len() > 0 {
                    1int
                } else {
                    0int
                }),
                r@.len() >= start,
                " - "@.len() > 0,
                forall|k: int|
                    0 <= k < i && ddg_count(topics, k, start, max_results as int) < max_results
                        && topics[k].first_url@.len() > 0 ==> topic_result(
                        #[trigger] r@[ddg_count(topics, k, start, max_results as int)],
                        topics[k],
                        k,
                    ),
            decreases topics.len() - i,
        {
            let ghost before = r@;
            proof {
                assert forall|k: int| 0 <= k < i implies ddg_count(
                    topics,
                    k,
                    start,
                    max_results as int,
                ) <= r@.len() by {
                    lemma_ddg_count_monotone(topics, k, i as int, start, max_results as int);
                }
            }
            let topic = &answer.related_topics[i];
            if r.len() < max_results && !topic.first_url.as_str().is_empty() {
                let title = before_first(topic.text.as_str(), " - ");
                r.push(
                    SearchResult {
                        title,
                        url: topic.first_url.clone(),
                        snippet: topic.text.clone(),
                        source: String::from_str("duckduckgo"),
                        score: rank_score_at(800_000, i),
                        published_date: None,
                    },
                );
                assert forall|k: int|
                    0 <= k < i + 1 && ddg_count(topics, k, start, max_results as int)
                        < max_results && topics[k].first_url@.len() > 0 implies topic_result(
                    #[trigger] r@[ddg_count(topics, k, start, max_results as int)],
                    topics[k],
                    k,
                ) by {
                    if k < i {
                        lemma_ddg_count_monotone(topics, 0, k, start, max_results as int);
                        lemma_ddg_count_monotone(topics, k + 1, i as int, start, max_results as int);
                        assert(ddg_count(topics, k + 1, start, max_results as int) == ddg_count(
                            topics,
                            k,
                            start,
                            max_results as int,
                        ) + 1);
                        assert(r@[ddg_count(topics, k, start, max_results as int)] == before[ddg_count(
                            topics,
                            k,
                            start,
                            max_results as int,
                        )]);
                    }
                }
            }
            i = i + 1;
        }
        r
    }
}

} // verus!
