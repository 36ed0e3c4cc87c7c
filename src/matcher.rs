use vstd::prelude::*;

use crate::text::{lower_all, lowercase_all, occurs_in, str_contains};
use crate::wallhaven::{tag_names, tag_names_of, CatalogError, QueryResult, Wallpaper, WallpaperInfo};

verus! {

/// What to look for: an optional free-text query, and the fragments that
/// disqualify a wallpaper when one of its tags contains them, in any case.
pub struct SearchPolicy {
    pub q: Option<String>,
    pub exclude_similar_tags: Vec<String>,
}

/// `tag` contains none of `exclusions`.
pub open spec fn tag_clear(exclusions: Seq<Seq<char>>, tag: Seq<char>) -> bool {
    forall|j: int| 0 <= j < exclusions.len() ==> !occurs_in(#[trigger] exclusions[j], tag)
}

/// No tag of `tags` contains any of `exclusions`.
pub open spec fn admissible(tags: Seq<Seq<char>>, exclusions: Seq<Seq<char>>) -> bool {
    forall|i: int| 0 <= i < tags.len() ==> tag_clear(exclusions, #[trigger] tags[i])
}

/// Returns whether `tag` contains none of `exclude_similar_tags`.
pub fn tag_is_not_excluded(exclude_similar_tags: &Vec<String>, tag: &String) -> (r: bool)
    ensures
        r == tag_clear(exclude_similar_tags.deep_view(), tag@),
{
    let mut i: usize = 0;
    while i < exclude_similar_tags.len()
        invariant
            i <= exclude_similar_tags@.len(),
            forall|j: int| 0 <= j < i ==> !occurs_in(#[trigger] exclude_similar_tags.deep_view()[j], tag@),
        decreases exclude_similar_tags@.len() - i,
    {
        if str_contains(tag.as_str(), exclude_similar_tags[i].as_str()) {
            assert(occurs_in(exclude_similar_tags.deep_view()[i as int], tag@));
            return false;
        }
        i = i + 1;
    }
    true
}

/// Returns whether no tag of `tags` contains any of `exclude_similar_tags`.
pub fn tags_are_admissible(exclude_similar_tags: &Vec<String>, tags: &Vec<String>) -> (r: bool)
    ensures
        r == admissible(tags.deep_view(), exclude_similar_tags.deep_view()),
{
    let mut i: usize = 0;
    while i < tags.len()
        invariant
            i <= tags@.len(),
            forall|j: int| 0 <= j < i ==> tag_clear(exclude_similar_tags.deep_view(), #[trigger] tags.deep_view()[j]),
        decreases tags@.len() - i,
    {
        if !tag_is_not_excluded(exclude_similar_tags, &tags[i]) {
            assert(!tag_clear(exclude_similar_tags.deep_view(), tags.deep_view()[i as int]));
            return false;
        }
        i = i + 1;
    }
    true
}

/// Where a matching run stands.
#[derive(Clone, Copy, Debug, PartialEq, Eq, Structural)]
pub enum Phase {
    /// Waiting for the page of search results.
    Searching,
    /// Waiting for the tags of the candidate at the current position.
    Fetching,
    /// The run has its outcome.
    Finished,
}

/// The state of a matching run: the lowercased exclusions, the page of
/// candidates, the position of the candidate whose tags are awaited, and the phase.
pub struct MatcherModel {
    pub exclusions: Seq<Seq<char>>,
    pub candidates: Seq<WallpaperInfo>,
    pub position: int,
    pub phase: Phase,
}

impl MatcherModel {
    /// While tags are awaited, the position names a candidate of the page.
    pub open spec fn wf(self) -> bool {
        self.phase == Phase::Fetching ==> 0 <= self.position < self.candidates.len()
    }
}

/// What a step of a run asks for or ends with.
pub enum StepModel {
    Fetch(Seq<char>),
    Failed(CatalogError),
    NotFound,
    Found(WallpaperInfo, Seq<Seq<char>>),
}

/// The outcome of a run: the first admissible candidate with its lowercased
/// tags, or none.
#[derive(Debug)]
pub enum MatchResult {
    Found(WallpaperInfo, Vec<String>),
    NotFound,
}

/// What the caller of a run does next: fetch the tags of the item with the
/// given identifier, or take the outcome.
#[derive(Debug)]
pub enum MatchStep {
    FetchTags(String),
    Done(Result<MatchResult, CatalogError>),
}

impl View for MatchStep {
    type V = StepModel;

    open spec fn view(&self) -> StepModel {
        match self {
            MatchStep::FetchTags(id) => StepModel::Fetch(id@),
            MatchStep::Done(Err(e)) => StepModel::Failed(*e),
            MatchStep::Done(Ok(MatchResult::NotFound)) => StepModel::NotFound,
            MatchStep::Done(Ok(MatchResult::Found(w, tags))) => StepModel::Found(*w, tags.deep_view()),
        }
    }
}

/// A run that has just started, with the given lowercased exclusions.
pub open spec fn start_model(exclusions: Seq<Seq<char>>) -> MatcherModel {
    MatcherModel { exclusions, candidates: Seq::empty(), position: 0, phase: Phase::Searching }
}

/// A run that has its outcome.
pub open spec fn finished_model(m: MatcherModel) -> MatcherModel {
    MatcherModel { exclusions: m.exclusions, candidates: Seq::empty(), position: 0, phase: Phase::Finished }
}

/// The candidates of a search reply.
pub open spec fn page_of(reply: Result<QueryResult, CatalogError>) -> Result<Seq<WallpaperInfo>, CatalogError> {
    match reply {
        Ok(page) => Ok(page.data@),
        Err(e) => Err(e),
    }
}

/// The state and step after the search reply `page`: a failure ends the run,
/// an empty page ends it with no match, any other page asks for the tags of
/// its first candidate.
pub open spec fn after_search(m: MatcherModel, page: Result<Seq<WallpaperInfo>, CatalogError>) -> (MatcherModel, StepModel) {
    match page {
        Err(e) => (finished_model(m), StepModel::Failed(e)),
        Ok(c) => if c.len() == 0 {
            (finished_model(m), StepModel::NotFound)
        } else {
            (MatcherModel { exclusions: m.exclusions, candidates: c, position: 0, phase: Phase::Fetching },
             StepModel::Fetch(c[0].id@))
        },
    }
}

/// The state and step after the tag reply for the candidate at the current
/// position: a failure ends the run; admissible tags end it with that
/// candidate; otherwise the next candidate's tags are asked for, or the run
/// ends with no match when the page is exhausted.
pub open spec fn after_tags(m: MatcherModel, reply: Result<Wallpaper, CatalogError>) -> (MatcherModel, StepModel) {
    match reply {
        Err(e) => (finished_model(m), StepModel::Failed(e)),
        Ok(w) => if admissible(tag_names_of(w), m.exclusions) {
            (finished_model(m), StepModel::Found(m.candidates[m.position], tag_names_of(w)))
        } else if m.position + 1 < m.candidates.len() {
            (MatcherModel { exclusions: m.exclusions, candidates: m.candidates, position: m.position + 1, phase: Phase::Fetching },
             StepModel::Fetch(m.candidates[m.position + 1].id@))
        } else {
            (finished_model(m), StepModel::NotFound)
        },
    }
}

/// The steps that the tag replies `replies`, given in turn from state `m`, produce.
pub open spec fn replay(m: MatcherModel, replies: Seq<Result<Wallpaper, CatalogError>>) -> Seq<StepModel>
    decreases replies.len(),
{
    if replies.len() == 0 {
        Seq::empty()
    } else {
        let (next, step) = after_tags(m, replies[0]);
        seq![step] + replay(next, replies.drop_first())
    }
}

/// The steps of a whole run with lowercased `exclusions`: the one after the
/// search reply `page`, then one for each tag reply of `replies`.
pub open spec fn run(exclusions: Seq<Seq<char>>, page: Result<Seq<WallpaperInfo>, CatalogError>, replies: Seq<Result<Wallpaper, CatalogError>>) -> Seq<StepModel> {
    let (m, step) = after_search(start_model(exclusions), page);
    seq![step] + replay(m, replies)
}

/// One run of picking the first admissible wallpaper of a page of search
/// results. The caller performs the requests it asks for and hands back the replies.
pub struct WallpaperMatcher {
    exclusions: Vec<String>,
    candidates: Vec<WallpaperInfo>,
    position: usize,
    phase: Phase,
}

impl View for WallpaperMatcher {
    type V = MatcherModel;

    closed spec fn view(&self) -> MatcherModel {
        MatcherModel {
            exclusions: self.exclusions.deep_view(),
            candidates: self.candidates@,
            position: self.position as int,
            phase: self.phase,
        }
    }
}

impl WallpaperMatcher {
    /// Starts a run for `policy`; its exclusions are compared in lowercase.
    pub fn new(policy: &SearchPolicy) -> (r: WallpaperMatcher)
        ensures
            r@ == start_model(lower_all(policy.exclude_similar_tags.deep_view())),
    {
        WallpaperMatcher {
            exclusions: lowercase_all(&policy.exclude_similar_tags),
            candidates: Vec::new(),
            position: 0,
            phase: Phase::Searching,
        }
    }

    /// The phase of the run.
    pub fn phase(&self) -> (r: Phase)
        ensures
            r == self@.phase,
    {
        self.phase
    }

    /// Takes the reply to the search and says what comes next.
    pub fn search_done(&mut self, reply: Result<QueryResult, CatalogError>) -> (r: MatchStep)
        requires
            old(self)@.phase == Phase::Searching,
        ensures
            (final(self)@, r@) == after_search(old(self)@, page_of(reply)),
            final(self)@.wf(),
    {
        match reply {
            Err(e) => {
                self.candidates = Vec::new();
                self.position = 0;
                self.phase = Phase::Finished;
                MatchStep::Done(Err(e))
            },
            Ok(page) => {
                if page.data.len() == 0 {
                    self.candidates = Vec::new();
                    self.position = 0;
                    self.phase = Phase::Finished;
                    MatchStep::Done(Ok(MatchResult::NotFound))
                } else {
                    let id = page.data[0].id.clone();
                    self.candidates = page.data;
                    self.position = 0;
                    self.phase = Phase::Fetching;
                    MatchStep::FetchTags(id)
                }
            },
        }
    }

    /// Takes the reply to the tag request for the current candidate and says
    /// what comes next.
    pub fn tags_fetched(&mut self, reply: Result<Wallpaper, CatalogError>) -> (r: MatchStep)
        requires
            old(self)@.phase == Phase::Fetching,
            old(self)@.wf(),
        ensures
            (final(self)@, r@) == after_tags(old(self)@, reply),
            final(self)@.wf(),
    {
        match reply {
            Err(e) => {
                self.candidates = Vec::new();
                self.position = 0;
                self.phase = Phase::Finished;
                MatchStep::Done(Err(e))
            },
            Ok(wallpaper) => {
                assert(self.position < self.candidates@.len());
                let tags = tag_names(&wallpaper);
                if tags_are_admissible(&self.exclusions, &tags) {
                    let found = self.candidates.remove(self.position);
                    self.candidates = Vec::new();
                    self.position = 0;
                    self.phase = Phase::Finished;
                    MatchStep::Done(Ok(MatchResult::Found(found, tags)))
                } else if self.candidates.len() - self.position > 1 {
                    self.position = self.position + 1;
                    MatchStep::FetchTags(self.candidates[self.position].id.clone())
                } else {
                    self.candidates = Vec::new();
                    self.position = 0;
                    self.phase = Phase::Finished;
                    MatchStep::Done(Ok(MatchResult::NotFound))
                }
            },
        }
    }
}

/// With no exclusions, every tag set is admissible.
pub proof fn lemma_no_exclusions_admit_all(tags: Seq<Seq<char>>)
    ensures
        admissible(tags, Seq::empty()),
{
}

/// Extracting tags twice from replies that carry the same tag names gives the
/// same tag set.
pub proof fn lemma_tag_names_stable(a: Wallpaper, b: Wallpaper)
    requires
        a.tags@.len() == b.tags@.len(),
        forall|i: int| 0 <= i < a.tags@.len() ==> #[trigger] a.tags@[i].name@ == b.tags@[i].name@,
    ensures
        tag_names_of(a) == tag_names_of(b),
{
    assert(tag_names_of(a) =~= tag_names_of(b));
}

proof fn lemma_replay_first_fit(m: MatcherModel, replies: Seq<Result<Wallpaper, CatalogError>>, k: int)
    requires
        m.phase == Phase::Fetching,
        0 <= m.position,
        0 <= k,
        m.position + k < m.candidates.len(),
        replies.len() == k + 1,
        forall|i: int| 0 <= i <= k ==> #[trigger] replies[i] is Ok,
        forall|i: int| 0 <= i < k ==> !admissible(tag_names_of(#[trigger] replies[i]->Ok_0), m.exclusions),
        admissible(tag_names_of(replies[k]->Ok_0), m.exclusions),
    ensures
        replay(m, replies) == Seq::new(k as nat, |i: int| StepModel::Fetch(m.candidates[m.position + i + 1].id@)).push(
            StepModel::Found(m.candidates[m.position + k], tag_names_of(replies[k]->Ok_0)),
        ),
    decreases k,
{
    let (next, step) = after_tags(m, replies[0]);
    let rest = replies.drop_first();
    assert(replies[0] is Ok);
    if k == 0 {
        assert(replay(next, rest) == Seq::<StepModel>::empty());
        assert(replay(m, replies) =~= Seq::new(k as nat, |i: int| StepModel::Fetch(m.candidates[m.position + i + 1].id@)).push(
            StepModel::Found(m.candidates[m.position + k], tag_names_of(replies[k]->Ok_0)),
        ));
    } else {
        assert(!admissible(tag_names_of(replies[0]->Ok_0), m.exclusions));
        assert forall|i: int| 0 <= i <= k - 1 implies #[trigger] rest[i] is Ok by {
            assert(rest[i] == replies[i + 1]);
        }
        assert forall|i: int| 0 <= i < k - 1 implies !admissible(tag_names_of(#[trigger] rest[i]->Ok_0), next.exclusions) by {
            assert(rest[i] == replies[i + 1]);
        }
        assert(rest[k - 1] == replies[k]);
        lemma_replay_first_fit(next, rest, k - 1);
        assert(replay(m, replies) =~= Seq::new(k as nat, |i: int| StepModel::Fetch(m.candidates[m.position + i + 1].id@)).push(
            StepModel::Found(m.candidates[m.position + k], tag_names_of(replies[k]->Ok_0)),
        ));
    }
}

proof fn lemma_replay_all_rejected(m: MatcherModel, replies: Seq<Result<Wallpaper, CatalogError>>)
    requires
        m.phase == Phase::Fetching,
        0 <= m.position < m.candidates.len(),
        replies.len() == m.candidates.len() - m.position,
        forall|i: int| 0 <= i < replies.len() ==> #[trigger] replies[i] is Ok,
        forall|i: int| 0 <= i < replies.len() ==> !admissible(tag_names_of(#[trigger] replies[i]->Ok_0), m.exclusions),
    ensures
        replay(m, replies) == Seq::new((replies.len() - 1) as nat, |i: int| StepModel::Fetch(m.candidates[m.position + i + 1].id@)).push(
            StepModel::NotFound,
        ),
    decreases replies.len(),
{
    let (next, step) = after_tags(m, replies[0]);
    let rest = replies.drop_first();
    assert(replies[0] is Ok);
    assert(!admissible(tag_names_of(replies[0]->Ok_0), m.exclusions));
    if replies.len() == 1 {
        assert(replay(next, rest) == Seq::<StepModel>::empty());
        assert(replay(m, replies) =~= Seq::new((replies.len() - 1) as nat, |i: int| StepModel::Fetch(m.candidates[m.position + i + 1].id@)).push(
            StepModel::NotFound,
        ));
    } else {
        assert forall|i: int| 0 <= i < rest.len() implies #[trigger] rest[i] is Ok by {
            assert(rest[i] == replies[i + 1]);
        }
        assert forall|i: int| 0 <= i < rest.len() implies !admissible(tag_names_of(#[trigger] rest[i]->Ok_0), next.exclusions) by {
            assert(rest[i] == replies[i + 1]);
        }
        lemma_replay_all_rejected(next, rest);
        assert(replay(m, replies) =~= Seq::new((replies.len() - 1) as nat, |i: int| StepModel::Fetch(m.candidates[m.position + i + 1].id@)).push(
            StepModel::NotFound,
        ));
    }
}

/// First fit: when the first `k` candidates of a page are rejected and the
/// next one is admissible, the run asks for the tags of the first `k + 1`
/// candidates, in page order, then ends with candidate `k` and its tags.
pub proof fn lemma_first_fit(
    exclusions: Seq<Seq<char>>,
    page: Seq<WallpaperInfo>,
    replies: Seq<Result<Wallpaper, CatalogError>>,
    k: int,
)
    requires
        0 <= k < page.len(),
        replies.len() == k + 1,
        forall|i: int| 0 <= i <= k ==> #[trigger] replies[i] is Ok,
        forall|i: int| 0 <= i < k ==> !admissible(tag_names_of(#[trigger] replies[i]->Ok_0), exclusions),
        admissible(tag_names_of(replies[k]->Ok_0), exclusions),
    ensures
        run(exclusions, Ok(page), replies) == Seq::new((k + 1) as nat, |i: int| StepModel::Fetch(page[i].id@)).push(
            StepModel::Found(page[k], tag_names_of(replies[k]->Ok_0)),
        ),
{
    let m = after_search(start_model(exclusions), Ok(page)).0;
    lemma_replay_first_fit(m, replies, k);
    assert(run(exclusions, Ok(page), replies) =~= Seq::new((k + 1) as nat, |i: int| StepModel::Fetch(page[i].id@)).push(
        StepModel::Found(page[k], tag_names_of(replies[k]->Ok_0)),
    ));
}

/// With no exclusions, a page with at least one candidate gives its first
/// candidate, after one tag request.
pub proof fn lemma_no_exclusions_first_candidate(page: Seq<WallpaperInfo>, reply: Wallpaper)
    requires
        page.len() >= 1,
    ensures
        run(Seq::empty(), Ok(page), seq![Ok(reply)]) == seq![
            StepModel::Fetch(page[0].id@),
            StepModel::Found(page[0], tag_names_of(reply)),
        ],
{
    let replies: Seq<Result<Wallpaper, CatalogError>> = seq![Ok(reply)];
    assert(replies[0] is Ok);
    lemma_no_exclusions_admit_all(tag_names_of(reply));
    lemma_first_fit(Seq::empty(), page, replies, 0);
    assert(run(Seq::empty(), Ok(page), replies) =~= seq![
        StepModel::Fetch(page[0].id@),
        StepModel::Found(page[0], tag_names_of(reply)),
    ]);
}

/// An empty page ends the run with no match at once: no tags are asked for
/// and the run takes no tag reply.
pub proof fn lemma_empty_page(exclusions: Seq<Seq<char>>)
    ensures
        after_search(start_model(exclusions), Ok(Seq::empty())).0.phase == Phase::Finished,
        run(exclusions, Ok(Seq::empty()), Seq::empty()) == seq![StepModel::NotFound],
{
    assert(run(exclusions, Ok(Seq::empty()), Seq::empty()) =~= seq![StepModel::NotFound]);
}

/// When every candidate of a page is rejected, the run asks for the tags of
/// each candidate, in page order, and only then ends with no match.
pub proof fn lemma_all_rejected(
    exclusions: Seq<Seq<char>>,
    page: Seq<WallpaperInfo>,
    replies: Seq<Result<Wallpaper, CatalogError>>,
)
    requires
        page.len() >= 1,
        replies.len() == page.len(),
        forall|i: int| 0 <= i < replies.len() ==> #[trigger] replies[i] is Ok,
        forall|i: int| 0 <= i < replies.len() ==> !admissible(tag_names_of(#[trigger] replies[i]->Ok_0), exclusions),
    ensures
        run(exclusions, Ok(page), replies) == Seq::new(page.len(), |i: int| StepModel::Fetch(page[i].id@)).push(
            StepModel::NotFound,
        ),
{
    let m = after_search(start_model(exclusions), Ok(page)).0;
    lemma_replay_all_rejected(m, replies);
    assert(run(exclusions, Ok(page), replies) =~= Seq::new(page.len(), |i: int| StepModel::Fetch(page[i].id@)).push(
        StepModel::NotFound,
    ));
}

/// A failed search ends the run with that failure, before any tag request.
pub proof fn lemma_search_failure(exclusions: Seq<Seq<char>>, e: CatalogError)
    ensures
        after_search(start_model(exclusions), Err(e)).0.phase == Phase::Finished,
        run(exclusions, Err(e), Seq::empty()) == seq![StepModel::Failed(e)],
{
    assert(run(exclusions, Err(e), Seq::empty()) =~= seq![StepModel::Failed(e)]);
}

} // verus!
