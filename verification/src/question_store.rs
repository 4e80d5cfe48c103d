//! Question and session life cycle: creating sessions and questions,
//! answering, denying and dismissing them, reading their state, and the
//! automatic removal of sessions whose questions are all settled.
use crate::state::{
    filter_mask, has_question, has_session, is_pending_id, lookup, question_index,
    session_index, unique_question_ids, with_outcome, AppState, StoreView,
};
use crate::types::{
    opt_str_view, strs_view, AnswerInfo, AnswerInfoView, AnswerView, DeniedInfo, DeniedInfoView,
    GetAnswersResult, IpcToUiEvent, QuestionAnswer, QuestionStatus, QuestionView, ResultView,
    SessionView, UiEventView,
};
use crate::ipc::types::{AskItem, AskItemView};
use crate::text::{
    decimal, derive_display_name, display_name_for, lemma_sorted_of, list_contains, sort_strings,
    sorted_of, str_equal,
};
use crate::types::{clone_strings, opt_choices_view, question_views, Priority, Question, QuestionChoice, Session};
use vstd::prelude::*;

verus! {

// ------------------------------------------------------------
// Model
// ------------------------------------------------------------

/// A session is consumed when it has questions and none of them is still
/// pending (a question the store does not hold counts as settled).
pub open spec fn consumed(s: SessionView, qs: Seq<QuestionView>) -> bool {
    s.question_ids.len() > 0 && forall|j: int|
        0 <= j < s.question_ids.len() ==> !is_pending_id(qs, #[trigger] s.question_ids[j])
}

/// The store after the clean-up: consumed sessions are gone, and for each of
/// them, in session order, the user interface is told that it was removed
/// with its questions kept.
pub open spec fn cleaned(v: StoreView) -> StoreView {
    StoreView {
        sessions: v.sessions.filter(|s: SessionView| !consumed(s, v.questions)),
        outbox: v.outbox + v.sessions.filter(|s: SessionView| consumed(s, v.questions)).map_values(
            |s: SessionView| UiEventView::SessionRemoved(s.id, true),
        ),
        ..v
    }
}

/// The store has no consumed session.
pub open spec fn no_consumed_session(v: StoreView) -> bool {
    forall|i: int| 0 <= i < v.sessions.len() ==> !consumed(#[trigger] v.sessions[i], v.questions)
}

/// A question once answered.
pub open spec fn answered(q: QuestionView, answer: AnswerView, now: u64) -> QuestionView {
    with_outcome(q, QuestionStatus::Answered, Some(now), Some(answer), q.dismiss_reason)
}

/// The store after the question at position `i` was answered at `now`.
pub open spec fn answer_post(v: StoreView, i: int, answer: AnswerView, now: u64) -> StoreView {
    cleaned(
        StoreView {
            questions: v.questions.update(i, answered(v.questions[i], answer, now)),
            wake_pending: true,
            ..v
        },
    )
}

/// An empty result.
pub open spec fn empty_result() -> ResultView {
    ResultView {
        answered: Seq::empty(),
        denied: Seq::empty(),
        pending: Seq::empty(),
        timed_out: false,
        shutdown: false,
    }
}

/// The answer state of the questions named by `ids`, in the order of `ids`:
/// an answered question goes to `answered` with its answer, a denied or
/// dismissed one to `denied` with its reason, a pending one to `pending`; an
/// id the store does not hold is left out.
pub open spec fn answers_of(qs: Seq<QuestionView>, ids: Seq<Seq<char>>) -> ResultView
    decreases ids.len(),
{
    if ids.len() == 0 {
        empty_result()
    } else {
        let r = answers_of(qs, ids.drop_last());
        match lookup(qs, ids.last()) {
            None => r,
            Some(q) => match q.status {
                QuestionStatus::Answered => match q.answer {
                    Some(a) => ResultView {
                        answered: r.answered.push(AnswerInfoView { id: q.id, answer: a }),
                        ..r
                    },
                    None => r,
                },
                QuestionStatus::Denied | QuestionStatus::Dismissed => ResultView {
                    denied: r.denied.push(
                        DeniedInfoView {
                            id: q.id,
                            reason: match q.dismiss_reason {
                                Some(x) => x,
                                None => Seq::empty(),
                            },
                        },
                    ),
                    ..r
                },
                QuestionStatus::Pending => ResultView { pending: r.pending.push(q.id), ..r },
            },
        }
    }
}


/// The answer state of the questions named by `ids` as [`answers_of`] gives
/// it, except that a dismissed question is reported in no bucket unless
/// `report_dismissed` holds.
pub open spec fn answers_where(qs: Seq<QuestionView>, ids: Seq<Seq<char>>, report_dismissed: bool) -> ResultView
    decreases ids.len(),
{
    if ids.len() == 0 {
        empty_result()
    } else {
        let r = answers_where(qs, ids.drop_last(), report_dismissed);
        match lookup(qs, ids.last()) {
            None => r,
            Some(q) => match q.status {
                QuestionStatus::Answered => match q.answer {
                    Some(a) => ResultView {
                        answered: r.answered.push(AnswerInfoView { id: q.id, answer: a }),
                        ..r
                    },
                    None => r,
                },
                QuestionStatus::Dismissed if !report_dismissed => r,
                QuestionStatus::Denied | QuestionStatus::Dismissed => ResultView {
                    denied: r.denied.push(
                        DeniedInfoView {
                            id: q.id,
                            reason: match q.dismiss_reason {
                                Some(x) => x,
                                None => Seq::empty(),
                            },
                        },
                    ),
                    ..r
                },
                QuestionStatus::Pending => ResultView { pending: r.pending.push(q.id), ..r },
            },
        }
    }
}

/// The answer state a wait that also ends when the window closes reports:
/// answered and denied questions with their answers and reasons, pending ones
/// by id; a dismissed question is in no bucket.
pub open spec fn closable_answers_of(qs: Seq<QuestionView>, ids: Seq<Seq<char>>) -> ResultView {
    answers_where(qs, ids, false)
}

/// Reporting dismissed questions gives [`answers_of`].
proof fn lemma_answers_where_reporting(qs: Seq<QuestionView>, ids: Seq<Seq<char>>)
    ensures
        answers_where(qs, ids, true) == answers_of(qs, ids),
    decreases ids.len(),
{
    if ids.len() > 0 {
        lemma_answers_where_reporting(qs, ids.drop_last());
    }
}

/// The ids of `ids` that name a pending question of `qs`, each once, in the
/// order in which they first appear.
pub open spec fn newly_settled(qs: Seq<QuestionView>, ids: Seq<Seq<char>>) -> Seq<Seq<char>>
    decreases ids.len(),
{
    if ids.len() == 0 {
        Seq::empty()
    } else {
        let prev = newly_settled(qs, ids.drop_last());
        if is_pending_id(qs, ids.last()) && !prev.contains(ids.last()) {
            prev.push(ids.last())
        } else {
            prev
        }
    }
}

/// A question settled with a status and a reason.
pub open spec fn settled(q: QuestionView, status: QuestionStatus, reason: Option<Seq<char>>) -> QuestionView {
    QuestionView { status, dismiss_reason: reason, ..q }
}

/// The questions after each pending question named in `ids` was settled with
/// `status` and `reason`; every other question is unchanged.
pub open spec fn settle_listed(
    qs: Seq<QuestionView>,
    ids: Seq<Seq<char>>,
    status: QuestionStatus,
    reason: Option<Seq<char>>,
) -> Seq<QuestionView> {
    Seq::new(
        qs.len(),
        |k: int|
            if qs[k].status == QuestionStatus::Pending && ids.contains(qs[k].id) {
                settled(qs[k], status, reason)
            } else {
                qs[k]
            },
    )
}

/// The store after `apply_denied(ids, reason)`: the result is the list of
/// denied ids.
pub open spec fn deny_post(v: StoreView, ids: Seq<Seq<char>>, reason: Seq<char>) -> StoreView {
    if newly_settled(v.questions, ids).len() == 0 {
        v
    } else {
        cleaned(
            StoreView {
                questions: settle_listed(v.questions, ids, QuestionStatus::Denied, Some(reason)),
                wake_pending: true,
                ..v
            },
        )
    }
}

/// The store after `dismiss_questions(ids, reason)`: the result is the list
/// of dismissed ids, which the user interface is also told.
pub open spec fn dismiss_post(v: StoreView, ids: Seq<Seq<char>>, reason: Option<Seq<char>>) -> StoreView {
    let d = newly_settled(v.questions, ids);
    if d.len() == 0 {
        v
    } else {
        cleaned(
            StoreView {
                questions: settle_listed(v.questions, ids, QuestionStatus::Dismissed, reason),
                wake_pending: true,
                outbox: v.outbox.push(UiEventView::QuestionsDismissed(d)),
                ..v
            },
        )
    }
}

/// Membership in a sequence after a push.
pub proof fn lemma_push_contains<A>(s: Seq<A>, a: A, x: A)
    ensures
        s.push(a).contains(x) <==> (s.contains(x) || a == x),
{
    if s.contains(x) {
        let k = choose|k: int| 0 <= k < s.len() && s[k] == x;
        assert(s.push(a)[k] == x);
    }
    if a == x {
        assert(s.push(a)[s.len() as int] == x);
    }
    if s.push(a).contains(x) {
        let k = choose|k: int| 0 <= k < s.push(a).len() && s.push(a)[k] == x;
        if k < s.len() {
            assert(s[k] == x);
        }
    }
}

/// An id is newly settled exactly when it is listed and names a pending
/// question.
pub proof fn lemma_newly_settled_contains(qs: Seq<QuestionView>, ids: Seq<Seq<char>>, x: Seq<char>)
    ensures
        newly_settled(qs, ids).contains(x) <==> (ids.contains(x) && is_pending_id(qs, x)),
    decreases ids.len(),
{
    if ids.len() > 0 {
        let dl = ids.drop_last();
        let prev = newly_settled(qs, dl);
        lemma_newly_settled_contains(qs, dl, x);
        assert(ids =~= dl.push(ids.last()));
        lemma_push_contains(dl, ids.last(), x);
        lemma_push_contains(prev, ids.last(), x);
        if is_pending_id(qs, ids.last()) && !prev.contains(ids.last()) {
        } else {
            lemma_newly_settled_contains(qs, dl, ids.last());
        }
    }
}

/// Newly settled ids are listed once each.
pub proof fn lemma_newly_settled_no_duplicates(qs: Seq<QuestionView>, ids: Seq<Seq<char>>)
    ensures
        newly_settled(qs, ids).no_duplicates(),
    decreases ids.len(),
{
    if ids.len() > 0 {
        lemma_newly_settled_no_duplicates(qs, ids.drop_last());
    }
}

/// When no listed id names a pending question, settling changes nothing.
pub proof fn lemma_settle_nothing(
    qs: Seq<QuestionView>,
    ids: Seq<Seq<char>>,
    status: QuestionStatus,
    reason: Option<Seq<char>>,
)
    requires
        unique_question_ids(qs),
        newly_settled(qs, ids).len() == 0,
    ensures
        settle_listed(qs, ids, status, reason) == qs,
{
    assert forall|k: int| 0 <= k < qs.len() implies settle_listed(qs, ids, status, reason)[k] == qs[k] by {
        if qs[k].status == QuestionStatus::Pending && ids.contains(qs[k].id) {
            assert(qs[question_index(qs, qs[k].id)].id == qs[k].id);
            lemma_newly_settled_contains(qs, ids, qs[k].id);
        }
    }
    assert(settle_listed(qs, ids, status, reason) =~= qs);
}

/// Keeping the elements whose mark equals a predicate is filtering by it.
proof fn lemma_filter_mask_is_filter<A>(ss: Seq<A>, keep: Seq<bool>, p: spec_fn(A) -> bool)
    requires
        keep.len() == ss.len(),
        forall|k: int| 0 <= k < ss.len() ==> keep[k] == p(#[trigger] ss[k]),
    ensures
        filter_mask(ss, keep) == ss.filter(p),
    decreases ss.len(),
{
    reveal(Seq::filter);
    if ss.len() > 0 {
        lemma_filter_mask_is_filter(ss.drop_last(), keep.drop_last(), p);
    }
}

// ------------------------------------------------------------
// Clean-up
// ------------------------------------------------------------

impl AppState {
    /// Whether the session at position `i` is consumed.
    fn session_consumed(&self, i: usize) -> (r: bool)
        requires
            self.wf(),
            i < self@.sessions.len(),
        ensures
            r == consumed(self@.sessions[i as int], self@.questions),
    {
        let s = self.session_at(i);
        let n = s.question_ids.len();
        if n == 0 {
            return false;
        }
        let mut j: usize = 0;
        while j < n
            invariant
                self.wf(),
                s@ == self@.sessions[i as int],
                n == s.question_ids@.len(),
                0 <= j <= n,
                forall|jj: int|
                    0 <= jj < j ==> !is_pending_id(self@.questions, #[trigger] s@.question_ids[jj]),
            decreases n - j,
        {
            assert(s@.question_ids[j as int] == s.question_ids@[j as int]@);
            match self.find_question(s.question_ids[j].as_str()) {
                Some(k) => {
                    if self.question_at(k).status == QuestionStatus::Pending {
                        return false;
                    }
                },
                None => {},
            }
            j = j + 1;
        }
        true
    }

    /// Removes every consumed session (see [`cleaned`]).
    fn cleanup_consumed_sessions(&mut self)
        requires
            old(self).wf(),
        ensures
            final(self).wf(),
            final(self)@ == cleaned(old(self)@),
    {
        let ghost v = self@;
        let ghost gone = |s: SessionView| consumed(s, v.questions);
        let ghost stays = |s: SessionView| !consumed(s, v.questions);
        let ghost ev = |s: SessionView| UiEventView::SessionRemoved(s.id, true);
        let n = self.session_count();
        let mut keep: Vec<bool> = Vec::new();
        let mut i: usize = 0;
        while i < n
            invariant
                self.wf(),
                n == v.sessions.len(),
                0 <= i <= n,
                self@ == (StoreView {
                    outbox: v.outbox + v.sessions.take(i as int).filter(gone).map_values(ev),
                    ..v
                }),
                keep@.len() == i,
                forall|k: int| 0 <= k < i ==> keep@[k] == stays(#[trigger] v.sessions[k]),
                gone == (|s: SessionView| consumed(s, v.questions)),
                stays == (|s: SessionView| !consumed(s, v.questions)),
                ev == (|s: SessionView| UiEventView::SessionRemoved(s.id, true)),
            decreases n - i,
        {
            assert(self@.sessions == v.sessions);
            assert(self@.questions == v.questions);
            let c = self.session_consumed(i);
            proof {
                assert(gone(v.sessions[i as int]) == c);
                assert(stays(v.sessions[i as int]) == !c);
                assert(v.sessions.take(i + 1) =~= v.sessions.take(i as int).push(v.sessions[i as int]));
                v.sessions.take(i as int).lemma_filter_push(v.sessions[i as int], gone);
            }
            if c {
                let sid = self.session_at(i).id.clone();
                self.push_event(IpcToUiEvent::SessionRemoved { session_id: sid, keep_questions: true });
                proof {
                    let a = v.sessions.take(i + 1).filter(gone);
                    let b = v.sessions.take(i as int).filter(gone);
                    assert(a == b.push(v.sessions[i as int]));
                    assert(a.map_values(ev) =~= b.map_values(ev).push(ev(v.sessions[i as int])));
                    assert(self@.outbox =~= v.outbox + a.map_values(ev));
                }
            } else {
                proof {
                    assert(v.sessions.take(i + 1).filter(gone) == v.sessions.take(i as int).filter(gone));
                }
            }
            keep.push(!c);
            i = i + 1;
        }
        proof {
            assert(v.sessions.take(n as int) =~= v.sessions);
            lemma_filter_mask_is_filter(v.sessions, keep@, stays);
        }
        self.retain_sessions(&keep);
        assert(self@.outbox == cleaned(v).outbox);
    }
}

// ------------------------------------------------------------
// Answers
// ------------------------------------------------------------

impl AppState {
    /// Answers the question `question_id` at time `now`, if it is pending:
    /// it becomes answered, waiters are to be woken and consumed sessions are
    /// removed. Returns whether the question was pending; otherwise nothing
    /// changes.
    pub fn apply_answer_at(&mut self, question_id: &str, answer: QuestionAnswer, now: u64) -> (r:
        bool)
        requires
            old(self).wf(),
        ensures
            final(self).wf(),
            r == is_pending_id(old(self)@.questions, question_id@),
            r ==> final(self)@ == answer_post(
                old(self)@,
                question_index(old(self)@.questions, question_id@),
                answer@,
                now,
            ),
            !r ==> final(self)@ == old(self)@,
    {
        let i = match self.find_question(question_id) {
            Some(i) => i,
            None => return false,
        };
        if self.question_at(i).status != QuestionStatus::Pending {
            return false;
        }
        let reason = self.question_at(i).dismiss_reason.clone();
        self.set_outcome(i, QuestionStatus::Answered, Some(now), Some(answer), reason);
        self.notify_state_changed();
        self.cleanup_consumed_sessions();
        true
    }

    /// Answers the question `question_id` now (see [`AppState::apply_answer_at`]).
    pub fn apply_answer(&mut self, question_id: &str, answer: QuestionAnswer) -> (r: bool)
        requires
            old(self).wf(),
        ensures
            final(self).wf(),
            r == is_pending_id(old(self)@.questions, question_id@),
            r ==> exists|now: u64|
                final(self)@ == #[trigger] answer_post(
                    old(self)@,
                    question_index(old(self)@.questions, question_id@),
                    answer@,
                    now,
                ),
            !r ==> final(self)@ == old(self)@,
    {
        let now = crate::state::now_millis();
        self.apply_answer_at(question_id, answer, now)
    }

    /// The answer state of the questions named by `question_ids` (see
    /// [`answers_of`]); neither flag is set.
    pub fn get_answers(&self, question_ids: &[String]) -> (r: GetAnswersResult)
        requires
            self.wf(),
        ensures
            r@ == answers_of(self@.questions, strs_view(question_ids@)),
            !r.timed_out,
            !r.shutdown,
    {
        proof {
            lemma_answers_where_reporting(self@.questions, strs_view(question_ids@));
        }
        self.collect_answers(question_ids, true)
    }

    /// The answer state a wait that also ends when the window closes reports
    /// (see [`closable_answers_of`]); neither flag is set.
    pub fn get_closable_answers(&self, question_ids: &[String]) -> (r: GetAnswersResult)
        requires
            self.wf(),
        ensures
            r@ == closable_answers_of(self@.questions, strs_view(question_ids@)),
            !r.timed_out,
            !r.shutdown,
    {
        self.collect_answers(question_ids, false)
    }

    /// The answer state of the questions named by `question_ids` (see
    /// [`answers_where`]).
    fn collect_answers(&self, question_ids: &[String], report_dismissed: bool) -> (r: GetAnswersResult)
        requires
            self.wf(),
        ensures
            r@ == answers_where(self@.questions, strs_view(question_ids@), report_dismissed),
            !r.timed_out,
            !r.shutdown,
    {
        let ghost ids = strs_view(question_ids@);
        let ghost qs = self@.questions;
        let mut answered: Vec<AnswerInfo> = Vec::new();
        let mut denied: Vec<DeniedInfo> = Vec::new();
        let mut pending: Vec<String> = Vec::new();
        let n = question_ids.len();
        let mut i: usize = 0;
        proof {
            assert(ids.take(0) =~= Seq::<Seq<char>>::empty());
            assert(answered@.map_values(|a: AnswerInfo| a@) =~= Seq::<AnswerInfoView>::empty());
            assert(denied@.map_values(|d: DeniedInfo| d@) =~= Seq::<DeniedInfoView>::empty());
            assert(strs_view(pending@) =~= Seq::<Seq<char>>::empty());
        }
        while i < n
            invariant
                self.wf(),
                qs == self@.questions,
                ids == strs_view(question_ids@),
                n == question_ids@.len(),
                0 <= i <= n,
                (ResultView {
                    answered: answered@.map_values(|a: AnswerInfo| a@),
                    denied: denied@.map_values(|d: DeniedInfo| d@),
                    pending: strs_view(pending@),
                    timed_out: false,
                    shutdown: false,
                }) == answers_where(qs, ids.take(i as int), report_dismissed),
            decreases n - i,
        {
            proof {
                assert(ids.take(i + 1).drop_last() =~= ids.take(i as int));
                assert(ids.take(i + 1).last() == question_ids@[i as int]@);
            }
            let ghost before_a = answered@;
            let ghost before_d = denied@;
            let ghost before_p = pending@;
            match self.find_question(question_ids[i].as_str()) {
                None => {},
                Some(k) => {
                    let q = self.question_at(k);
                    match q.status {
                        QuestionStatus::Answered => {
                            match &q.answer {
                                Some(a) => {
                                    answered.push(AnswerInfo { id: q.id.clone(), answer: a.clone() });
                                    assert(answered@.map_values(|a: AnswerInfo| a@) =~= before_a.map_values(
                                        |a: AnswerInfo| a@,
                                    ).push(answered@.last()@));
                                },
                                None => {},
                            }
                        },
                        QuestionStatus::Dismissed if !report_dismissed => {},
                        QuestionStatus::Denied | QuestionStatus::Dismissed => {
                            let reason = match &q.dismiss_reason {
                                Some(x) => x.clone(),
                                None => String::new(),
                            };
                            denied.push(DeniedInfo { id: q.id.clone(), reason });
                            assert(denied@.map_values(|d: DeniedInfo| d@) =~= before_d.map_values(
                                |d: DeniedInfo| d@,
                            ).push(denied@.last()@));
                        },
                        QuestionStatus::Pending => {
                            pending.push(q.id.clone());
                            assert(strs_view(pending@) =~= strs_view(before_p).push(q.id@));
                        },
                    }
                },
            }
            i = i + 1;
        }
        proof {
            assert(ids.take(n as int) =~= ids);
        }
        GetAnswersResult { answered, denied, pending, timed_out: false, shutdown: false }
    }
}

// ------------------------------------------------------------
// Denying and dismissing
// ------------------------------------------------------------

impl AppState {
    /// Settles every pending question named in `ids` with `status` and
    /// `reason`, and returns the settled ids (see [`newly_settled`]).
    fn settle_questions(&mut self, ids: &[String], status: QuestionStatus, reason: Option<&str>) -> (d:
        Vec<String>)
        requires
            old(self).wf(),
            status != QuestionStatus::Pending,
        ensures
            final(self).wf(),
            strs_view(d@) == newly_settled(old(self)@.questions, strs_view(ids@)),
            final(self)@ == (StoreView {
                questions: settle_listed(
                    old(self)@.questions,
                    strs_view(ids@),
                    status,
                    match reason {
                        Some(r) => Some(r@),
                        None => None,
                    },
                ),
                ..old(self)@
            }),
    {
        let ghost v = self@;
        let ghost idv = strs_view(ids@);
        let ghost rv: Option<Seq<char>> = match reason {
            Some(r) => Some(r@),
            None => None,
        };
        let mut done: Vec<String> = Vec::new();
        let n = ids.len();
        let mut i: usize = 0;
        proof {
            assert(idv.take(0) =~= Seq::<Seq<char>>::empty());
            assert(settle_listed(v.questions, idv.take(0), status, rv) =~= v.questions);
            assert(strs_view(done@) =~= Seq::<Seq<char>>::empty());
        }
        while i < n
            invariant
                self.wf(),
                n == ids@.len(),
                idv == strs_view(ids@),
                0 <= i <= n,
                self@ == (StoreView {
                    questions: settle_listed(v.questions, idv.take(i as int), status, rv),
                    ..v
                }),
                strs_view(done@) == newly_settled(v.questions, idv.take(i as int)),
                unique_question_ids(v.questions),
                rv == match reason {
                    Some(r) => Some(r@),
                    None => None::<Seq<char>>,
                },
                status != QuestionStatus::Pending,
            decreases n - i,
        {
            let ghost x = idv[i as int];
            let ghost before = self@.questions;
            let ghost done_before = done@;
            proof {
                assert(idv.take(i + 1) =~= idv.take(i as int).push(x));
                assert(idv.take(i + 1).drop_last() =~= idv.take(i as int));
                assert(ids@[i as int]@ == x);
                lemma_newly_settled_contains(v.questions, idv.take(i as int), x);
            }
            match self.find_question(ids[i].as_str()) {
                Some(k) => {
                    proof {
                        assert(v.questions[k as int].id == x);
                        assert(question_index(v.questions, x) == k) by {
                            let j = question_index(v.questions, x);
                            assert(v.questions[j].id == x);
                        }
                    }
                    if self.question_at(k).status == QuestionStatus::Pending {
                        let r: Option<String> = match reason {
                            Some(t) => Some(t.to_owned()),
                            None => None,
                        };
                        self.settle_question(k, status, r);
                        done.push(ids[i].clone());
                        proof {
                            assert(v.questions[k as int].status == QuestionStatus::Pending);
                            assert(is_pending_id(v.questions, x));
                            assert(!idv.take(i as int).contains(x));
                            assert(newly_settled(v.questions, idv.take(i + 1)) == newly_settled(
                                v.questions,
                                idv.take(i as int),
                            ).push(x));
                            assert(strs_view(done@) =~= strs_view(done_before).push(x));
                            assert forall|j: int| 0 <= j < v.questions.len() implies self@.questions[j]
                                == settle_listed(v.questions, idv.take(i + 1), status, rv)[j] by {
                                if j != k {
                                    assert(v.questions[j].id != x);
                                    assert(idv.take(i + 1).contains(v.questions[j].id) == idv.take(
                                        i as int,
                                    ).contains(v.questions[j].id));
                                } else {
                                    assert(idv.take(i + 1)[i as int] == x);
                                }
                            }
                            assert(self@.questions =~= settle_listed(
                                v.questions,
                                idv.take(i + 1),
                                status,
                                rv,
                            ));
                        }
                    } else {
                        proof {
                            if v.questions[k as int].status == QuestionStatus::Pending {
                                assert(idv.take(i as int).contains(x));
                            }
                            assert(newly_settled(v.questions, idv.take(i + 1)) == newly_settled(
                                v.questions,
                                idv.take(i as int),
                            ));
                            assert forall|j: int| 0 <= j < v.questions.len() implies self@.questions[j]
                                == settle_listed(v.questions, idv.take(i + 1), status, rv)[j] by {
                                if j != k {
                                    assert(v.questions[j].id != x);
                                    assert(idv.take(i + 1).contains(v.questions[j].id) == idv.take(
                                        i as int,
                                    ).contains(v.questions[j].id));
                                } else {
                                    assert(idv.take(i + 1)[i as int] == x);
                                }
                            }
                            assert(self@.questions =~= settle_listed(
                                v.questions,
                                idv.take(i + 1),
                                status,
                                rv,
                            ));
                        }
                    }
                },
                None => {
                    proof {
                        if has_question(v.questions, x) {
                            let j = question_index(v.questions, x);
                            assert(self@.questions[j].id == v.questions[j].id);
                        }
                        assert(newly_settled(v.questions, idv.take(i + 1)) == newly_settled(
                            v.questions,
                            idv.take(i as int),
                        ));
                        assert forall|j: int| 0 <= j < v.questions.len() implies self@.questions[j]
                            == settle_listed(v.questions, idv.take(i + 1), status, rv)[j] by {
                            assert(self@.questions[j].id == v.questions[j].id);
                            assert(v.questions[j].id != x);
                            assert(idv.take(i + 1).contains(v.questions[j].id) == idv.take(
                                i as int,
                            ).contains(v.questions[j].id));
                        }
                        assert(self@.questions =~= settle_listed(
                            v.questions,
                            idv.take(i + 1),
                            status,
                            rv,
                        ));
                    }
                },
            }
            i = i + 1;
        }
        proof {
            assert(idv.take(n as int) =~= idv);
        }
        done
    }

    /// Denies (on the user's behalf) every pending question named in
    /// `question_ids`, with `reason`; returns the denied ids. When something
    /// was denied, waiters are to be woken and consumed sessions are removed;
    /// otherwise nothing changes.
    pub fn apply_denied(&mut self, question_ids: &[String], reason: &str) -> (d: Vec<String>)
        requires
            old(self).wf(),
        ensures
            final(self).wf(),
            strs_view(d@) == newly_settled(old(self)@.questions, strs_view(question_ids@)),
            final(self)@ == deny_post(old(self)@, strs_view(question_ids@), reason@),
    {
        let ghost v = self@;
        let denied = self.settle_questions(question_ids, QuestionStatus::Denied, Some(reason));
        if denied.len() > 0 {
            self.notify_state_changed();
            self.cleanup_consumed_sessions();
        } else {
            proof {
                lemma_settle_nothing(v.questions, strs_view(question_ids@), QuestionStatus::Denied, Some(reason@));
            }
        }
        denied
    }

    /// Dismisses (on the client's behalf) every pending question named in
    /// `question_ids`, with `reason`; returns the dismissed ids. When
    /// something was dismissed, waiters are to be woken, the user interface is
    /// told which questions went, and consumed sessions are removed;
    /// otherwise nothing changes.
    pub fn dismiss_questions(&mut self, question_ids: &[String], reason: Option<&str>) -> (d: Vec<
        String,
    >)
        requires
            old(self).wf(),
        ensures
            final(self).wf(),
            strs_view(d@) == newly_settled(old(self)@.questions, strs_view(question_ids@)),
            final(self)@ == dismiss_post(
                old(self)@,
                strs_view(question_ids@),
                match reason {
                    Some(r) => Some(r@),
                    None => None,
                },
            ),
    {
        let ghost v = self@;
        let dismissed = self.settle_questions(question_ids, QuestionStatus::Dismissed, reason);
        if dismissed.len() > 0 {
            self.notify_state_changed();
            let copy = crate::types::clone_strings(&dismissed);
            self.push_event(IpcToUiEvent::QuestionsDismissed { question_ids: copy });
            self.cleanup_consumed_sessions();
        } else {
            proof {
                lemma_settle_nothing(
                    v.questions,
                    strs_view(question_ids@),
                    QuestionStatus::Dismissed,
                    match reason {
                        Some(r) => Some(r@),
                        None => None,
                    },
                );
            }
        }
        dismissed
    }
}

// ------------------------------------------------------------
// Sessions
// ------------------------------------------------------------

/// The store after `ensure_session(sid, dn)` at time `now`, and the
/// returned display name. An existing session takes a given name that
/// differs from its own (and the user interface is told); a missing session
/// is created with the given name or the derived one (and the user interface
/// is told).
pub open spec fn ensure_session_post(
    v: StoreView,
    sid: Seq<char>,
    dn: Option<Seq<char>>,
    now: u64,
) -> (StoreView, Seq<char>) {
    if has_session(v.sessions, sid) {
        let j = session_index(v.sessions, sid);
        let s = v.sessions[j];
        match dn {
            Some(name) => if name != s.display_name {
                let s2 = SessionView { display_name: name, ..s };
                (
                    StoreView {
                        sessions: v.sessions.update(j, s2),
                        outbox: v.outbox.push(UiEventView::SessionUpdated(s2)),
                        ..v
                    },
                    name,
                )
            } else {
                (v, s.display_name)
            },
            None => (v, s.display_name),
        }
    } else {
        let name = match dn {
            Some(n) => n,
            None => display_name_for(sid),
        };
        let s = SessionView { id: sid, display_name: name, created_at: now, question_ids: Seq::empty() };
        (
            StoreView {
                sessions: v.sessions.push(s),
                outbox: v.outbox.push(UiEventView::SessionAdded(s)),
                ..v
            },
            name,
        )
    }
}

/// The store after `remove_session(sid)` when the session exists: it is gone
/// (its questions stay) and the user interface is told so.
pub open spec fn remove_session_post(v: StoreView, sid: Seq<char>) -> StoreView {
    StoreView {
        sessions: v.sessions.remove(session_index(v.sessions, sid)),
        outbox: v.outbox.push(UiEventView::SessionRemoved(sid, true)),
        ..v
    }
}

/// The ids of the pending questions of session `sid`, in question order.
pub open spec fn pending_of_session(qs: Seq<QuestionView>, sid: Seq<char>) -> Seq<Seq<char>> {
    qs.filter(|q: QuestionView| q.session_id == sid && q.status == QuestionStatus::Pending).map_values(
        |q: QuestionView| q.id,
    )
}

/// The text of the reason given to questions of a removed session.
pub open spec fn session_removed_reason() -> Seq<char> {
    seq!['s', 'e', 's', 's', 'i', 'o', 'n', ' ', 'r', 'e', 'm', 'o', 'v', 'e', 'd']
}

/// The store after `remove_session_with_questions(sid)` when the session
/// exists: it is gone, its pending questions are dismissed with the reason
/// "session removed" (see [`dismiss_post`]), and the user interface is told
/// that the session and its questions went.
pub open spec fn remove_with_questions_post(v: StoreView, sid: Seq<char>) -> StoreView {
    let v1 = StoreView { sessions: v.sessions.remove(session_index(v.sessions, sid)), ..v };
    let v2 = dismiss_post(v1, pending_of_session(v.questions, sid), Some(session_removed_reason()));
    StoreView { outbox: v2.outbox.push(UiEventView::SessionRemoved(sid, false)), ..v2 }
}

/// A new pending question made from a submitted one.
pub open spec fn new_question(item: AskItemView, id: Seq<char>, sid: Seq<char>, now: u64) -> QuestionView {
    QuestionView {
        id,
        session_id: sid,
        text: item.text,
        header: item.header,
        choices: item.choices,
        allow_other: item.allow_other,
        multi_select: item.multi_select,
        instant: item.instant,
        context: item.context,
        category: item.category,
        priority: item.priority,
        status: QuestionStatus::Pending,
        created_at: now,
        answered_at: None,
        answer: None,
        dismiss_reason: None,
    }
}

/// The store after `add_question_to_session(sid, dn, item)` at time `now`,
/// and the new question: the session is ensured, the question gets the next
/// id, joins the store and is listed last in its session.
pub open spec fn add_to_session_post(
    v: StoreView,
    sid: Seq<char>,
    dn: Option<Seq<char>>,
    item: AskItemView,
    now: u64,
) -> (StoreView, QuestionView) {
    let v1 = ensure_session_post(v, sid, dn, now).0;
    let id = decimal(v1.id_counter + 1);
    let q = new_question(item, id, sid, now);
    let j = session_index(v1.sessions, sid);
    (
        StoreView {
            id_counter: v1.id_counter + 1,
            questions: v1.questions.push(q),
            sessions: v1.sessions.update(
                j,
                SessionView { question_ids: v1.sessions[j].question_ids.push(id), ..v1.sessions[j] },
            ),
            ..v1
        },
        q,
    )
}

impl AppState {
    /// Makes sure session `session_id` exists at time `now` and returns its
    /// display name (see [`ensure_session_post`]).
    pub fn ensure_session_at(&mut self, session_id: &str, display_name: Option<String>, now: u64) -> (name:
        String)
        requires
            old(self).wf(),
        ensures
            final(self).wf(),
            (final(self)@, name@) == ensure_session_post(
                old(self)@,
                session_id@,
                opt_str_view(display_name),
                now,
            ),
    {
        match self.find_session(session_id) {
            Some(j) => {
                match display_name {
                    Some(name) => {
                        if !(self.session_at(j).display_name == name) {
                            let mut s2 = self.session_at(j).clone();
                            s2.display_name = name.clone();
                            let event = IpcToUiEvent::SessionUpdated { session: s2.clone() };
                            self.set_session(j, s2);
                            self.push_event(event);
                            name
                        } else {
                            self.session_at(j).display_name.clone()
                        }
                    },
                    None => self.session_at(j).display_name.clone(),
                }
            },
            None => {
                let name = match display_name {
                    Some(n) => n,
                    None => derive_display_name(session_id),
                };
                let s = Session {
                    id: session_id.to_owned(),
                    display_name: name.clone(),
                    created_at: now,
                    question_ids: Vec::new(),
                };
                proof {
                    assert(s@.question_ids =~= Seq::<Seq<char>>::empty());
                }
                let event = IpcToUiEvent::SessionAdded { session: s.clone() };
                self.push_session(s);
                self.push_event(event);
                name
            },
        }
    }

    /// Makes sure session `session_id` exists and returns its display name
    /// (see [`AppState::ensure_session_at`]; a new session records the
    /// current time).
    pub fn ensure_session(&mut self, session_id: &str, display_name: Option<String>) -> (name: String)
        requires
            old(self).wf(),
        ensures
            final(self).wf(),
            exists|now: u64|
                (final(self)@, name@) == #[trigger] ensure_session_post(
                    old(self)@,
                    session_id@,
                    opt_str_view(display_name),
                    now,
                ),
    {
        let now = crate::state::now_millis();
        self.ensure_session_at(session_id, display_name, now)
    }

    /// Removes session `session_id` from the panel and returns whether it
    /// existed. Its questions stay, so that clients still waiting on them can
    /// read their answers.
    pub fn remove_session(&mut self, session_id: &str) -> (r: bool)
        requires
            old(self).wf(),
        ensures
            final(self).wf(),
            r == has_session(old(self)@.sessions, session_id@),
            r ==> final(self)@ == remove_session_post(old(self)@, session_id@),
            !r ==> final(self)@ == old(self)@,
    {
        match self.find_session(session_id) {
            None => false,
            Some(j) => {
                self.remove_session_at(j);
                self.push_event(
                    IpcToUiEvent::SessionRemoved { session_id: session_id.to_owned(), keep_questions: true },
                );
                true
            },
        }
    }

    /// The ids of the pending questions of session `session_id`, in question
    /// order.
    fn pending_ids_of_session(&self, session_id: &str) -> (ids: Vec<String>)
        requires
            self.wf(),
        ensures
            strs_view(ids@) == pending_of_session(self@.questions, session_id@),
    {
        let ghost qs = self@.questions;
        let ghost p = |q: QuestionView| q.session_id == session_id@ && q.status == QuestionStatus::Pending;
        let ghost f = |q: QuestionView| q.id;
        let mut ids: Vec<String> = Vec::new();
        let n = self.question_count();
        let mut i: usize = 0;
        proof {
            assert(qs.take(0).filter(p) =~= Seq::<QuestionView>::empty()) by {
                reveal(Seq::filter);
            }
            assert(strs_view(ids@) =~= qs.take(0).filter(p).map_values(f));
        }
        while i < n
            invariant
                self.wf(),
                qs == self@.questions,
                n == qs.len(),
                0 <= i <= n,
                p == (|q: QuestionView| q.session_id == session_id@ && q.status == QuestionStatus::Pending),
                f == (|q: QuestionView| q.id),
                strs_view(ids@) == qs.take(i as int).filter(p).map_values(f),
            decreases n - i,
        {
            let q = self.question_at(i);
            proof {
                assert(qs.take(i + 1) =~= qs.take(i as int).push(qs[i as int]));
                qs.take(i as int).lemma_filter_push(qs[i as int], p);
            }
            let ghost before = ids@;
            if str_equal(q.session_id.as_str(), session_id) && q.status == QuestionStatus::Pending {
                ids.push(q.id.clone());
                assert(strs_view(ids@) =~= strs_view(before).push(q.id@));
                assert(strs_view(ids@) =~= qs.take(i + 1).filter(p).map_values(f));
            }
            i = i + 1;
        }
        proof {
            assert(qs.take(n as int) =~= qs);
        }
        ids
    }

    /// Removes session `session_id` and settles its questions (the panel's
    /// close button): its pending questions are dismissed with the reason
    /// "session removed" but stay readable. Returns whether the session
    /// existed; otherwise nothing changes.
    pub fn remove_session_with_questions(&mut self, session_id: &str) -> (r: bool)
        requires
            old(self).wf(),
        ensures
            final(self).wf(),
            r == has_session(old(self)@.sessions, session_id@),
            r ==> final(self)@ == remove_with_questions_post(old(self)@, session_id@),
            !r ==> final(self)@ == old(self)@,
    {
        let j = match self.find_session(session_id) {
            None => return false,
            Some(j) => j,
        };
        self.remove_session_at(j);
        let pending_ids = self.pending_ids_of_session(session_id);
        let reason = "session removed";
        proof {
            reveal_strlit("session removed");
            assert(reason@ =~= session_removed_reason());
        }
        self.dismiss_questions(pending_ids.as_slice(), Some(reason));
        self.push_event(
            IpcToUiEvent::SessionRemoved { session_id: session_id.to_owned(), keep_questions: false },
        );
        true
    }
}

// ------------------------------------------------------------
// Adding questions
// ------------------------------------------------------------

impl AppState {
    /// Adds the submitted question `item` to session `session_id` at time
    /// `now` and returns it (see [`add_to_session_post`]).
    pub fn add_question_to_session_at(
        &mut self,
        session_id: &str,
        display_name: Option<String>,
        item: AskItem,
        now: u64,
    ) -> (q: Question)
        requires
            old(self).wf(),
            old(self)@.id_counter < u32::MAX,
        ensures
            final(self).wf(),
            (final(self)@, q@) == add_to_session_post(
                old(self)@,
                session_id@,
                opt_str_view(display_name),
                item@,
                now,
            ),
    {
        let ghost dn = opt_str_view(display_name);
        self.ensure_session_at(session_id, display_name, now);
        let ghost v1 = self@;
        proof {
            assert(v1 == ensure_session_post(old(self)@, session_id@, dn, now).0);
            if has_session(old(self)@.sessions, session_id@) {
                let j = session_index(old(self)@.sessions, session_id@);
                assert(v1.sessions[j].id == session_id@);
            } else {
                assert(v1.sessions[v1.sessions.len() - 1].id == session_id@);
            }
            assert(has_session(v1.sessions, session_id@));
        }
        let id = self.next_id();
        let ghost item_view = item@;
        let question = Question {
            id: id.clone(),
            session_id: session_id.to_owned(),
            text: item.text,
            header: item.header,
            choices: item.choices,
            allow_other: item.allow_other,
            multi_select: item.multi_select,
            instant: item.instant,
            context: item.context,
            category: item.category,
            priority: item.priority,
            status: QuestionStatus::Pending,
            created_at: now,
            answered_at: None,
            answer: None,
            dismiss_reason: None,
        };
        proof {
            assert(question@ == new_question(item_view, id@, session_id@, now));
            assert(crate::state::issued(id@, self@.id_counter));
        }
        let copy = question.clone();
        self.push_question(question);
        let ghost v2 = self@;
        match self.find_session(session_id) {
            Some(j) => {
                let mut s = self.session_at(j).clone();
                let ghost before = s.question_ids@;
                s.question_ids.push(id);
                assert(strs_view(s.question_ids@) =~= strs_view(before).push(copy@.id));
                proof {
                    let qs2 = self@.questions;
                    assert(qs2[qs2.len() - 1] == copy@);
                    assert(self@.sessions[j as int].id == session_id@);
                    crate::state::lemma_lists_own_push(qs2, self@.sessions[j as int], qs2.len() - 1);
                    assert(s@ == (SessionView {
                        question_ids: self@.sessions[j as int].question_ids.push(copy@.id),
                        ..self@.sessions[j as int]
                    }));
                }
                self.set_session(j, s);
                proof {
                    assert(j == session_index(v1.sessions, session_id@));
                    assert(self@.sessions =~= add_to_session_post(
                        old(self)@,
                        session_id@,
                        dn,
                        item_view,
                        now,
                    ).0.sessions);
                }
            },
            None => {
                assert(false);
            },
        }
        copy
    }

    /// Adds the submitted question `item` to session `session_id` and
    /// returns it (see [`AppState::add_question_to_session_at`]; the session,
    /// when new, and the question record the current time).
    pub fn add_question_to_session(&mut self, session_id: &str, display_name: Option<String>, item: AskItem) -> (q:
        Question)
        requires
            old(self).wf(),
            old(self)@.id_counter < u32::MAX,
        ensures
            final(self).wf(),
            exists|now: u64|
                (final(self)@, q@) == #[trigger] add_to_session_post(
                    old(self)@,
                    session_id@,
                    opt_str_view(display_name),
                    item@,
                    now,
                ),
    {
        let now = crate::state::now_millis();
        self.add_question_to_session_at(session_id, display_name, item, now)
    }
}

// ------------------------------------------------------------
// Reading the store
// ------------------------------------------------------------

/// The question ids listed by session `sid`, or none when there is no such
/// session.
pub open spec fn session_question_ids(v: StoreView, sid: Seq<char>) -> Seq<Seq<char>> {
    if has_session(v.sessions, sid) {
        v.sessions[session_index(v.sessions, sid)].question_ids
    } else {
        Seq::empty()
    }
}

/// The ids of all questions that belong to session `sid`, in question order.
pub open spec fn questions_of_session(qs: Seq<QuestionView>, sid: Seq<char>) -> Seq<Seq<char>> {
    qs.filter(|q: QuestionView| q.session_id == sid).map_values(|q: QuestionView| q.id)
}

/// The ids a request is about: the given ids when there are any;
/// otherwise the ids the session lists; otherwise the ids of every question
/// that belongs to the session, in lexicographic order.
pub open spec fn resolution(v: StoreView, sid: Seq<char>, ids: Seq<Seq<char>>) -> Seq<Seq<char>> {
    if ids.len() > 0 {
        ids
    } else if session_question_ids(v, sid).len() > 0 {
        session_question_ids(v, sid)
    } else {
        sorted_of(questions_of_session(v.questions, sid))
    }
}

/// The ids of all pending questions, in question order.
pub open spec fn all_pending_ids(qs: Seq<QuestionView>) -> Seq<Seq<char>> {
    qs.filter(|q: QuestionView| q.status == QuestionStatus::Pending).map_values(|q: QuestionView| q.id)
}

/// The number of pending questions.
pub open spec fn pending_count(qs: Seq<QuestionView>) -> nat {
    qs.filter(|q: QuestionView| q.status == QuestionStatus::Pending).len()
}

impl AppState {
    /// The question ids listed by session `session_id` (none when there is no
    /// such session).
    pub fn get_session_question_ids(&self, session_id: &str) -> (ids: Vec<String>)
        requires
            self.wf(),
        ensures
            strs_view(ids@) == session_question_ids(self@, session_id@),
    {
        match self.find_session(session_id) {
            Some(j) => clone_strings(&self.session_at(j).question_ids),
            None => {
                let v: Vec<String> = Vec::new();
                assert(strs_view(v@) =~= Seq::<Seq<char>>::empty());
                v
            },
        }
    }

    /// The ids of the questions that belong to session `session_id`, in
    /// question order.
    fn question_ids_of_session(&self, session_id: &str) -> (ids: Vec<String>)
        requires
            self.wf(),
        ensures
            strs_view(ids@) == questions_of_session(self@.questions, session_id@),
    {
        let ghost qs = self@.questions;
        let ghost p = |q: QuestionView| q.session_id == session_id@;
        let ghost f = |q: QuestionView| q.id;
        let mut ids: Vec<String> = Vec::new();
        let n = self.question_count();
        let mut i: usize = 0;
        proof {
            assert(qs.take(0).filter(p) =~= Seq::<QuestionView>::empty()) by {
                reveal(Seq::filter);
            }
            assert(strs_view(ids@) =~= qs.take(0).filter(p).map_values(f));
        }
        while i < n
            invariant
                self.wf(),
                qs == self@.questions,
                n == qs.len(),
                0 <= i <= n,
                p == (|q: QuestionView| q.session_id == session_id@),
                f == (|q: QuestionView| q.id),
                strs_view(ids@) == qs.take(i as int).filter(p).map_values(f),
            decreases n - i,
        {
            let q = self.question_at(i);
            proof {
                assert(qs.take(i + 1) =~= qs.take(i as int).push(qs[i as int]));
                qs.take(i as int).lemma_filter_push(qs[i as int], p);
            }
            let ghost before = ids@;
            if str_equal(q.session_id.as_str(), session_id) {
                ids.push(q.id.clone());
                assert(strs_view(ids@) =~= strs_view(before).push(q.id@));
                assert(strs_view(ids@) =~= qs.take(i + 1).filter(p).map_values(f));
            }
            i = i + 1;
        }
        proof {
            assert(qs.take(n as int) =~= qs);
        }
        ids
    }

    /// The ids a request is about (see [`resolution`]); given ids come back
    /// as they are.
    pub fn resolve_question_ids(&self, session_id: &str, ids: Vec<String>) -> (r: Vec<String>)
        requires
            self.wf(),
        ensures
            strs_view(r@) == resolution(self@, session_id@, strs_view(ids@)),
            ids@.len() > 0 ==> r@ == ids@,
    {
        if ids.len() > 0 {
            return ids;
        }
        let from_session = self.get_session_question_ids(session_id);
        if from_session.len() > 0 {
            return from_session;
        }
        let fallback = self.question_ids_of_session(session_id);
        let sorted = sort_strings(fallback);
        proof {
            lemma_sorted_of(questions_of_session(self@.questions, session_id@), strs_view(sorted@));
        }
        sorted
    }

    /// The ids of all pending questions, in question order; each appears
    /// once, and an id is listed exactly when it names a pending question.
    fn pending_question_ids(&self) -> (ids: Vec<String>)
        requires
            self.wf(),
        ensures
            strs_view(ids@) == all_pending_ids(self@.questions),
            strs_view(ids@).no_duplicates(),
            forall|x: Seq<char>| #[trigger] strs_view(ids@).contains(x) <==> is_pending_id(self@.questions, x),
    {
        let ghost qs = self@.questions;
        let ghost p = |q: QuestionView| q.status == QuestionStatus::Pending;
        let ghost f = |q: QuestionView| q.id;
        let mut ids: Vec<String> = Vec::new();
        let n = self.question_count();
        let mut i: usize = 0;
        proof {
            assert(qs.take(0).filter(p) =~= Seq::<QuestionView>::empty()) by {
                reveal(Seq::filter);
            }
            assert(strs_view(ids@) =~= qs.take(0).filter(p).map_values(f));
        }
        while i < n
            invariant
                self.wf(),
                qs == self@.questions,
                n == qs.len(),
                0 <= i <= n,
                p == (|q: QuestionView| q.status == QuestionStatus::Pending),
                f == (|q: QuestionView| q.id),
                strs_view(ids@) == qs.take(i as int).filter(p).map_values(f),
                strs_view(ids@).no_duplicates(),
                forall|x: Seq<char>|
                    #[trigger] strs_view(ids@).contains(x) <==> exists|k: int|
                        0 <= k < i && #[trigger] qs[k].id == x && qs[k].status
                            == QuestionStatus::Pending,
            decreases n - i,
        {
            let q = self.question_at(i);
            proof {
                assert(qs.take(i + 1) =~= qs.take(i as int).push(qs[i as int]));
                qs.take(i as int).lemma_filter_push(qs[i as int], p);
            }
            let ghost before = ids@;
            if q.status == QuestionStatus::Pending {
                ids.push(q.id.clone());
                proof {
                    assert(strs_view(ids@) =~= strs_view(before).push(q.id@));
                    assert(strs_view(ids@) =~= qs.take(i + 1).filter(p).map_values(f));
                    assert(!strs_view(before).contains(q.id@)) by {
                        if strs_view(before).contains(q.id@) {
                            let k = choose|k: int|
                                0 <= k < i && #[trigger] qs[k].id == q.id@ && qs[k].status
                                    == QuestionStatus::Pending;
                            assert(qs[k].id == qs[i as int].id);
                        }
                    }
                    assert forall|x: Seq<char>| #[trigger] strs_view(ids@).contains(x) <==> exists|k: int|
                        0 <= k < i + 1 && #[trigger] qs[k].id == x && qs[k].status
                            == QuestionStatus::Pending by {
                        lemma_push_contains(strs_view(before), q.id@, x);
                        if x == q.id@ {
                            assert(qs[i as int].id == x);
                        }
                        if exists|k: int|
                            0 <= k < i + 1 && #[trigger] qs[k].id == x && qs[k].status
                                == QuestionStatus::Pending {
                            let k = choose|k: int|
                                0 <= k < i + 1 && #[trigger] qs[k].id == x && qs[k].status
                                    == QuestionStatus::Pending;
                            if k < i {
                                assert(strs_view(before).contains(x));
                            }
                        }
                    }
                }
            } else {
                proof {
                    assert forall|x: Seq<char>| #[trigger] strs_view(ids@).contains(x) <==> exists|k: int|
                        0 <= k < i + 1 && #[trigger] qs[k].id == x && qs[k].status
                            == QuestionStatus::Pending by {
                        if exists|k: int|
                            0 <= k < i + 1 && #[trigger] qs[k].id == x && qs[k].status
                                == QuestionStatus::Pending {
                            let k = choose|k: int|
                                0 <= k < i + 1 && #[trigger] qs[k].id == x && qs[k].status
                                    == QuestionStatus::Pending;
                            assert(k < i);
                        }
                    }
                }
            }
            i = i + 1;
        }
        proof {
            assert(qs.take(n as int) =~= qs);
            assert forall|x: Seq<char>| #[trigger] strs_view(ids@).contains(x) <==> is_pending_id(qs, x) by {
                if strs_view(ids@).contains(x) {
                    let k = choose|k: int|
                        0 <= k < n && #[trigger] qs[k].id == x && qs[k].status == QuestionStatus::Pending;
                    assert(question_index(qs, x) == k) by {
                        let j = question_index(qs, x);
                        assert(qs[j].id == x);
                    }
                }
                if is_pending_id(qs, x) {
                    let j = question_index(qs, x);
                    assert(qs[j].id == x);
                }
            }
        }
        ids
    }

    /// The number of pending questions of session `session_id` (those asked
    /// in it, whether or not the session is still listed).
    pub fn get_session_pending_count(&self, session_id: &str) -> (n: usize)
        requires
            self.wf(),
        ensures
            n == pending_of_session(self@.questions, session_id@).len(),
    {
        let ids = self.pending_ids_of_session(session_id);
        ids.len()
    }

    /// The number of pending questions.
    pub fn get_pending_count(&self) -> (n: usize)
        requires
            self.wf(),
        ensures
            n == pending_count(self@.questions),
    {
        let ghost qs = self@.questions;
        let ghost p = |q: QuestionView| q.status == QuestionStatus::Pending;
        let mut count: usize = 0;
        let n = self.question_count();
        let mut i: usize = 0;
        proof {
            assert(qs.take(0).filter(p) =~= Seq::<QuestionView>::empty()) by {
                reveal(Seq::filter);
            }
        }
        while i < n
            invariant
                self.wf(),
                qs == self@.questions,
                n == qs.len(),
                0 <= i <= n,
                p == (|q: QuestionView| q.status == QuestionStatus::Pending),
                count == qs.take(i as int).filter(p).len(),
                count <= i,
            decreases n - i,
        {
            proof {
                assert(qs.take(i + 1) =~= qs.take(i as int).push(qs[i as int]));
                qs.take(i as int).lemma_filter_push(qs[i as int], p);
            }
            if self.question_at(i).status == QuestionStatus::Pending {
                count = count + 1;
            }
            i = i + 1;
        }
        proof {
            assert(qs.take(n as int) =~= qs);
        }
        count
    }

    /// Tells the user interface about a new question.
    pub fn emit_question_added(&mut self, question: &Question)
        requires
            old(self).wf(),
        ensures
            final(self).wf(),
            final(self)@ == (StoreView {
                outbox: old(self)@.outbox.push(UiEventView::QuestionAdded(question@)),
                ..old(self)@
            }),
    {
        self.push_event(IpcToUiEvent::QuestionAdded { question: question.clone() });
    }

    /// Tells the user interface about several new questions at once.
    pub fn emit_questions_batch(&mut self, questions: &[Question])
        requires
            old(self).wf(),
        ensures
            final(self).wf(),
            final(self)@ == (StoreView {
                outbox: old(self)@.outbox.push(UiEventView::QuestionsBatch(question_views(questions@))),
                ..old(self)@
            }),
    {
        let mut copies: Vec<Question> = Vec::new();
        let n = questions.len();
        let mut i: usize = 0;
        while i < n
            invariant
                n == questions@.len(),
                0 <= i <= n,
                question_views(copies@) == question_views(questions@.take(i as int)),
                copies@.len() == i,
            decreases n - i,
        {
            let ghost before = copies@;
            let c = questions[i].clone();
            copies.push(c);
            proof {
                assert(copies@ == before.push(c));
                assert forall|k: int| 0 <= k < i + 1 implies question_views(copies@)[k]
                    == question_views(questions@.take(i + 1))[k] by {
                    if k < i {
                        assert(question_views(before)[k] == question_views(questions@.take(i as int))[k]);
                        assert(question_views(before)[k] == before[k]@);
                        assert(question_views(copies@)[k] == copies@[k]@);
                    } else {
                        assert(question_views(copies@)[k] == c@);
                    }
                }
            }
            assert(question_views(copies@) =~= question_views(questions@.take(i + 1)));
            i = i + 1;
        }
        assert(questions@.take(n as int) =~= questions@);
        assert(question_views(questions@) =~= question_views(questions@.take(n as int)));
        self.push_event(IpcToUiEvent::QuestionsBatch { questions: copies });
    }
}

// ------------------------------------------------------------
// Shutdown
// ------------------------------------------------------------

/// The text of the reason given to questions dismissed by the shutdown.
pub open spec fn shutdown_reason() -> Seq<char> {
    seq!['a', 'p', 'p', ' ', 's', 'h', 'u', 't', 'd', 'o', 'w', 'n']
}

/// The store after `begin_shutdown()`: it is shutting down, every pending
/// question is dismissed with the reason "app shutdown" (and the user
/// interface is told which, when there were any), and waiters are to be
/// woken. Sessions are left as they are.
pub open spec fn shutdown_post(v: StoreView) -> StoreView {
    let pend = all_pending_ids(v.questions);
    StoreView {
        shutting_down: true,
        questions: Seq::new(
            v.questions.len(),
            |k: int|
                if v.questions[k].status == QuestionStatus::Pending {
                    settled(v.questions[k], QuestionStatus::Dismissed, Some(shutdown_reason()))
                } else {
                    v.questions[k]
                },
        ),
        outbox: if pend.len() > 0 {
            v.outbox.push(UiEventView::QuestionsDismissed(pend))
        } else {
            v.outbox
        },
        wake_pending: true,
        ..v
    }
}

/// Settling a list of distinct pending ids settles exactly them.
proof fn lemma_newly_settled_all(qs: Seq<QuestionView>, ids: Seq<Seq<char>>)
    requires
        ids.no_duplicates(),
        forall|j: int| 0 <= j < ids.len() ==> is_pending_id(qs, #[trigger] ids[j]),
    ensures
        newly_settled(qs, ids) == ids,
    decreases ids.len(),
{
    if ids.len() > 0 {
        let dl = ids.drop_last();
        assert forall|j: int| 0 <= j < dl.len() implies is_pending_id(qs, #[trigger] dl[j]) by {
            assert(dl[j] == ids[j]);
        }
        lemma_newly_settled_all(qs, dl);
        assert(!dl.contains(ids.last())) by {
            if dl.contains(ids.last()) {
                let k = choose|k: int| 0 <= k < dl.len() && dl[k] == ids.last();
                assert(ids[k] == ids[ids.len() - 1]);
            }
        }
        assert(is_pending_id(qs, ids[ids.len() - 1]));
        assert(dl.push(ids.last()) =~= ids);
    }
}

impl AppState {
    /// Begins the shutdown (see [`shutdown_post`]), so that every blocked
    /// wait returns.
    pub fn begin_shutdown(&mut self)
        requires
            old(self).wf(),
        ensures
            final(self).wf(),
            final(self)@ == shutdown_post(old(self)@),
    {
        let ghost v = self@;
        self.set_shutting_down();
        let pending_ids = self.pending_question_ids();
        let ghost pend = strs_view(pending_ids@);
        let reason = "app shutdown";
        proof {
            reveal_strlit("app shutdown");
            assert(reason@ =~= shutdown_reason());
            assert forall|j: int| 0 <= j < pend.len() implies is_pending_id(v.questions, #[trigger] pend[j]) by {
                assert(pend.contains(pend[j]));
            }
            lemma_newly_settled_all(v.questions, pend);
        }
        self.settle_questions(pending_ids.as_slice(), QuestionStatus::Dismissed, Some(reason));
        proof {
            assert forall|k: int| 0 <= k < v.questions.len() implies self@.questions[k]
                == shutdown_post(v).questions[k] by {
                if v.questions[k].status == QuestionStatus::Pending {
                    assert(question_index(v.questions, v.questions[k].id) == k) by {
                        let j = question_index(v.questions, v.questions[k].id);
                        assert(v.questions[j].id == v.questions[k].id);
                    }
                    assert(is_pending_id(v.questions, v.questions[k].id));
                    assert(pend.contains(v.questions[k].id));
                } else {
                    if pend.contains(v.questions[k].id) {
                        assert(is_pending_id(v.questions, v.questions[k].id));
                        let j = question_index(v.questions, v.questions[k].id);
                        assert(v.questions[j].id == v.questions[k].id);
                    }
                }
            }
            assert(self@.questions =~= shutdown_post(v).questions);
        }
        if pending_ids.len() > 0 {
            self.push_event(IpcToUiEvent::QuestionsDismissed { question_ids: pending_ids });
        }
        self.notify_state_changed();
    }
}

// ------------------------------------------------------------
// Waiting
// ------------------------------------------------------------

/// The question with id `id` exists and is an instant question.
pub open spec fn is_instant_id(qs: Seq<QuestionView>, id: Seq<char>) -> bool {
    has_question(qs, id) && qs[question_index(qs, id)].instant
}

/// Whether a wait is over: an answered instant question always ends it;
/// otherwise a wait for all needs nothing pending, and a wait for any needs
/// something answered or cancelled.
pub open spec fn resolved(r: ResultView, require_all: bool, qs: Seq<QuestionView>) -> bool {
    (exists|i: int| 0 <= i < r.answered.len() && is_instant_id(qs, #[trigger] r.answered[i].id)) || if require_all {
        r.pending.len() == 0
    } else {
        r.answered.len() > 0 || r.denied.len() > 0
    }
}

/// Whether the wait described by `result` and `require_all` is over (see
/// [`resolved`]).
pub fn is_resolved(result: &GetAnswersResult, require_all: bool, state: &AppState) -> (b: bool)
    requires
        state.wf(),
    ensures
        b == resolved(result@, require_all, state@.questions),
{
    let ghost qs = state@.questions;
    let n = result.answered.len();
    let mut i: usize = 0;
    while i < n
        invariant
            state.wf(),
            qs == state@.questions,
            n == result.answered@.len(),
            0 <= i <= n,
            forall|k: int| 0 <= k < i ==> !is_instant_id(qs, #[trigger] result@.answered[k].id),
        decreases n - i,
    {
        assert(result@.answered[i as int].id == result.answered@[i as int].id@);
        match state.find_question(result.answered[i].id.as_str()) {
            Some(k) => {
                if state.question_at(k).instant {
                    return true;
                }
            },
            None => {},
        }
        i = i + 1;
    }
    if require_all {
        result.pending.len() == 0
    } else {
        result.answered.len() > 0 || result.denied.len() > 0
    }
}

/// What a blocked wait has just learned.
#[derive(Debug, Clone, Copy, PartialEq, Eq, Structural)]
pub enum WaitEvent {
    /// The wait begins.
    Start,
    /// The answer state may have changed.
    Wake,
    /// The time allowed has run out.
    Deadline,
}

/// A result with its flags set.
pub open spec fn flagged(r: ResultView, timed_out: bool, shutdown: bool) -> ResultView {
    ResultView { timed_out, shutdown, ..r }
}

impl AppState {
    /// The decision of a wait for the questions `question_ids` after
    /// `event`: the result to return, or `None` to keep waiting. At the start
    /// the wait ends when it is resolved; on a wake-up it ends when the
    /// application is shutting down (flagged so) or when it is resolved; at
    /// the deadline it ends, flagged as timed out.
    pub fn wait_decision(&self, question_ids: &[String], require_all: bool, event: WaitEvent) -> (r:
        Option<GetAnswersResult>)
        requires
            self.wf(),
        ensures
            ({
                let a = answers_of(self@.questions, strs_view(question_ids@));
                match event {
                    WaitEvent::Start => if resolved(a, require_all, self@.questions) {
                        r matches Some(x) && x@ == a
                    } else {
                        r is None
                    },
                    WaitEvent::Wake => if self@.shutting_down {
                        r matches Some(x) && x@ == flagged(a, false, true)
                    } else if resolved(a, require_all, self@.questions) {
                        r matches Some(x) && x@ == a
                    } else {
                        r is None
                    },
                    WaitEvent::Deadline => r matches Some(x) && x@ == flagged(a, true, false),
                }
            }),
    {
        let mut result = self.get_answers(question_ids);
        match event {
            WaitEvent::Deadline => {
                result.timed_out = true;
                Some(result)
            },
            WaitEvent::Wake => {
                if self.shutting_down() {
                    result.shutdown = true;
                    Some(result)
                } else if is_resolved(&result, require_all, self) {
                    Some(result)
                } else {
                    None
                }
            },
            WaitEvent::Start => {
                if is_resolved(&result, require_all, self) {
                    Some(result)
                } else {
                    None
                }
            },
        }
    }
}

// ------------------------------------------------------------
// Waiting until the window closes
// ------------------------------------------------------------

/// Whether a wait that also ends when the window closes is over: an
/// answered or cancelled instant question ends a wait for all early, which
/// otherwise needs nothing pending; a wait for any needs something answered
/// or cancelled.
pub open spec fn closable_resolved(r: ResultView, require_all: bool, qs: Seq<QuestionView>) -> bool {
    let instant = (exists|i: int| 0 <= i < r.answered.len() && is_instant_id(qs, #[trigger] r.answered[i].id))
        || (exists|i: int| 0 <= i < r.denied.len() && is_instant_id(qs, #[trigger] r.denied[i].id));
    if require_all {
        r.pending.len() == 0 || instant
    } else {
        r.answered.len() > 0 || r.denied.len() > 0
    }
}

/// Whether some entry of `ids` names an instant question of the store.
fn any_instant(state: &AppState, ids: &Vec<String>) -> (b: bool)
    requires
        state.wf(),
    ensures
        b == exists|i: int| 0 <= i < ids@.len() && is_instant_id(state@.questions, #[trigger] ids@[i]@),
{
    let n = ids.len();
    let mut i: usize = 0;
    while i < n
        invariant
            state.wf(),
            n == ids@.len(),
            0 <= i <= n,
            forall|k: int| 0 <= k < i ==> !is_instant_id(state@.questions, #[trigger] ids@[k]@),
        decreases n - i,
    {
        match state.find_question(ids[i].as_str()) {
            Some(k) => {
                if state.question_at(k).instant {
                    return true;
                }
            },
            None => {},
        }
        i = i + 1;
    }
    false
}

/// Whether the wait described by `result` and `require_all` is over when it
/// also ends on the window's closing (see [`closable_resolved`]).
pub fn is_resolved_closable(result: &GetAnswersResult, require_all: bool, state: &AppState) -> (b: bool)
    requires
        state.wf(),
    ensures
        b == closable_resolved(result@, require_all, state@.questions),
{
    if !require_all {
        return result.answered.len() > 0 || result.denied.len() > 0;
    }
    if result.pending.len() == 0 {
        return true;
    }
    let mut answered_ids: Vec<String> = Vec::new();
    let n = result.answered.len();
    let mut i: usize = 0;
    while i < n
        invariant
            n == result.answered@.len(),
            0 <= i <= n,
            answered_ids@.len() == i,
            forall|k: int| 0 <= k < i ==> #[trigger] answered_ids@[k]@ == result@.answered[k].id,
        decreases n - i,
    {
        answered_ids.push(result.answered[i].id.clone());
        i = i + 1;
    }
    let mut denied_ids: Vec<String> = Vec::new();
    let m = result.denied.len();
    let mut j: usize = 0;
    while j < m
        invariant
            m == result.denied@.len(),
            0 <= j <= m,
            denied_ids@.len() == j,
            forall|k: int| 0 <= k < j ==> #[trigger] denied_ids@[k]@ == result@.denied[k].id,
        decreases m - j,
    {
        denied_ids.push(result.denied[j].id.clone());
        j = j + 1;
    }
    let a = any_instant(state, &answered_ids);
    let d = any_instant(state, &denied_ids);
    proof {
        let qs = state@.questions;
        if a {
            let k = choose|k: int| 0 <= k < answered_ids@.len() && is_instant_id(qs, #[trigger] answered_ids@[k]@);
            assert(answered_ids@[k]@ == result@.answered[k].id);
        }
        if d {
            let k = choose|k: int| 0 <= k < denied_ids@.len() && is_instant_id(qs, #[trigger] denied_ids@[k]@);
            assert(denied_ids@[k]@ == result@.denied[k].id);
        }
        if exists|k: int| 0 <= k < result@.answered.len() && is_instant_id(qs, #[trigger] result@.answered[k].id) {
            let k = choose|k: int| 0 <= k < result@.answered.len() && is_instant_id(qs, #[trigger] result@.answered[k].id);
            assert(answered_ids@[k]@ == result@.answered[k].id);
        }
        if exists|k: int| 0 <= k < result@.denied.len() && is_instant_id(qs, #[trigger] result@.denied[k].id) {
            let k = choose|k: int| 0 <= k < result@.denied.len() && is_instant_id(qs, #[trigger] result@.denied[k].id);
            assert(denied_ids@[k]@ == result@.denied[k].id);
        }
    }
    a || d
}

/// What a wait that also ends when the window closes has just learned.
#[derive(Debug, Clone, Copy, PartialEq, Eq, Structural)]
pub enum ClosableWaitEvent {
    /// The wait begins.
    Start,
    /// The answer state may have changed.
    Wake,
    /// The window was closed.
    WindowClosed,
    /// The time allowed has run out.
    Deadline,
}

impl AppState {
    /// The decision of a wait for the questions `question_ids` that also
    /// ends when the window closes, after `event`; `window_closed` tells
    /// whether the window is already closed. At the start and on a wake-up
    /// the wait ends when it is resolved (see [`closable_resolved`]) or the
    /// window is closed; when the window closes it ends; at the deadline it
    /// ends, flagged as timed out. The result reports the questions as
    /// [`closable_answers_of`] does (a dismissed question in no bucket).
    /// `None` means: keep waiting.
    pub fn closable_wait_decision(
        &self,
        question_ids: &[String],
        require_all: bool,
        window_closed: bool,
        event: ClosableWaitEvent,
    ) -> (r: Option<GetAnswersResult>)
        requires
            self.wf(),
        ensures
            ({
                let a = closable_answers_of(self@.questions, strs_view(question_ids@));
                match event {
                    ClosableWaitEvent::Start | ClosableWaitEvent::Wake => if closable_resolved(
                        a,
                        require_all,
                        self@.questions,
                    ) || window_closed {
                        r matches Some(x) && x@ == a
                    } else {
                        r is None
                    },
                    ClosableWaitEvent::WindowClosed => r matches Some(x) && x@ == a,
                    ClosableWaitEvent::Deadline => r matches Some(x) && x@ == flagged(a, true, false),
                }
            }),
    {
        let mut result = self.get_closable_answers(question_ids);
        match event {
            ClosableWaitEvent::Deadline => {
                result.timed_out = true;
                Some(result)
            },
            ClosableWaitEvent::WindowClosed => Some(result),
            _ => {
                if is_resolved_closable(&result, require_all, self) || window_closed {
                    Some(result)
                } else {
                    None
                }
            },
        }
    }
}

// ------------------------------------------------------------
// Questions outside sessions, and instant answers
// ------------------------------------------------------------

/// The submitted-question model of the parts of a question.
pub open spec fn item_of(
    text: Seq<char>,
    header: Option<Seq<char>>,
    choices: Option<Seq<QuestionChoice>>,
    allow_other: bool,
    multi_select: bool,
    instant: bool,
    context: Option<Seq<char>>,
    category: Option<Seq<char>>,
    priority: Priority,
) -> AskItemView {
    AskItemView { text, header, choices, allow_other, multi_select, instant, context, category, priority }
}

/// The answered instant questions not yet delivered and not excluded.
pub open spec fn instant_ready(q: QuestionView, delivered: Seq<Seq<char>>, exclude: Seq<Seq<char>>) -> bool {
    &&& q.instant
    &&& q.status == QuestionStatus::Answered
    &&& q.answer is Some
    &&& !delivered.contains(q.id)
    &&& !exclude.contains(q.id)
}

/// The questions whose instant answers `collect_instant_answers` hands out,
/// in question order.
pub open spec fn instant_collected(v: StoreView, exclude: Seq<Seq<char>>) -> Seq<QuestionView> {
    v.questions.filter(|q: QuestionView| instant_ready(q, v.delivered, exclude))
}

/// The answered entry of a question.
pub open spec fn answer_info_of(q: QuestionView) -> AnswerInfoView {
    AnswerInfoView { id: q.id, answer: q.answer->0 }
}

/// The delivered ids after marking `ids`: each id not yet present is added,
/// once, in the order of `ids`.
pub open spec fn add_delivered(delivered: Seq<Seq<char>>, ids: Seq<Seq<char>>) -> Seq<Seq<char>>
    decreases ids.len(),
{
    if ids.len() == 0 {
        delivered
    } else {
        let d = add_delivered(delivered, ids.drop_last());
        if d.contains(ids.last()) {
            d
        } else {
            d.push(ids.last())
        }
    }
}

/// The models of a sequence of answered entries.
pub open spec fn answer_info_views(s: Seq<AnswerInfo>) -> Seq<AnswerInfoView> {
    s.map_values(|a: AnswerInfo| a@)
}

/// The models of a sequence of question references.
pub open spec fn question_ref_views(s: Seq<&Question>) -> Seq<QuestionView> {
    s.map_values(|q: &Question| q@)
}

impl AppState {
    /// Adds a question, outside any session, at time `now` and returns it:
    /// it gets the next id and joins the store, pending.
    pub fn add_question_at(
        &mut self,
        session_id: &str,
        text: String,
        header: Option<String>,
        choices: Option<Vec<QuestionChoice>>,
        allow_other: bool,
        multi_select: bool,
        instant: bool,
        context: Option<String>,
        category: Option<String>,
        priority: Priority,
        now: u64,
    ) -> (q: Question)
        requires
            old(self).wf(),
            old(self)@.id_counter < u32::MAX,
        ensures
            final(self).wf(),
            q@ == new_question(
                item_of(
                    text@,
                    opt_str_view(header),
                    opt_choices_view(choices),
                    allow_other,
                    multi_select,
                    instant,
                    opt_str_view(context),
                    opt_str_view(category),
                    priority,
                ),
                decimal(old(self)@.id_counter + 1),
                session_id@,
                now,
            ),
            final(self)@ == (StoreView {
                id_counter: old(self)@.id_counter + 1,
                questions: old(self)@.questions.push(q@),
                ..old(self)@
            }),
    {
        let id = self.next_id();
        let question = Question {
            id,
            session_id: session_id.to_owned(),
            text,
            header,
            choices,
            allow_other,
            multi_select,
            instant,
            context,
            category,
            priority,
            status: QuestionStatus::Pending,
            created_at: now,
            answered_at: None,
            answer: None,
            dismiss_reason: None,
        };
        proof {
            crate::text::lemma_decimal_len(self@.id_counter);
            assert(crate::state::issued(question@.id, self@.id_counter));
        }
        let copy = question.clone();
        self.push_question(question);
        copy
    }

    /// Adds a question, outside any session, and returns it (see
    /// [`AppState::add_question_at`]; the question records the current time).
    pub fn add_question(
        &mut self,
        session_id: &str,
        text: String,
        header: Option<String>,
        choices: Option<Vec<QuestionChoice>>,
        allow_other: bool,
        multi_select: bool,
        instant: bool,
        context: Option<String>,
        category: Option<String>,
        priority: Priority,
    ) -> (q: Question)
        requires
            old(self).wf(),
            old(self)@.id_counter < u32::MAX,
        ensures
            final(self).wf(),
            exists|now: u64|
                q@ == #[trigger] new_question(
                    item_of(
                        text@,
                        opt_str_view(header),
                        opt_choices_view(choices),
                        allow_other,
                        multi_select,
                        instant,
                        opt_str_view(context),
                        opt_str_view(category),
                        priority,
                    ),
                    decimal(old(self)@.id_counter + 1),
                    session_id@,
                    now,
                ),
            final(self)@ == (StoreView {
                id_counter: old(self)@.id_counter + 1,
                questions: old(self)@.questions.push(q@),
                ..old(self)@
            }),
    {
        let now = crate::state::now_millis();
        self.add_question_at(
            session_id,
            text,
            header,
            choices,
            allow_other,
            multi_select,
            instant,
            context,
            category,
            priority,
            now,
        )
    }

    /// The questions with status `status` (all questions when `None`), in
    /// question order.
    pub fn get_questions_by_status(&self, status: Option<QuestionStatus>) -> (r: Vec<&Question>)
        requires
            self.wf(),
        ensures
            question_ref_views(r@) == self@.questions.filter(
                |q: QuestionView| status is None || status == Some(q.status),
            ),
    {
        let ghost qs = self@.questions;
        let ghost p = |q: QuestionView| status is None || status == Some(q.status);
        let mut r: Vec<&Question> = Vec::new();
        let n = self.question_count();
        let mut i: usize = 0;
        proof {
            assert(qs.take(0).filter(p) =~= Seq::<QuestionView>::empty()) by {
                reveal(Seq::filter);
            }
            assert(question_ref_views(r@) =~= qs.take(0).filter(p));
        }
        while i < n
            invariant
                self.wf(),
                qs == self@.questions,
                n == qs.len(),
                0 <= i <= n,
                p == (|q: QuestionView| status is None || status == Some(q.status)),
                question_ref_views(r@) == qs.take(i as int).filter(p),
            decreases n - i,
        {
            let q = self.question_at(i);
            proof {
                assert(qs.take(i + 1) =~= qs.take(i as int).push(qs[i as int]));
                qs.take(i as int).lemma_filter_push(qs[i as int], p);
            }
            let ghost before = r@;
            let wanted = match status {
                None => true,
                Some(st) => q.status == st,
            };
            if wanted {
                r.push(q);
                assert(question_ref_views(r@) =~= question_ref_views(before).push(q@));
            }
            i = i + 1;
        }
        proof {
            assert(qs.take(n as int) =~= qs);
        }
        r
    }

    /// Hands out the answers of the answered instant questions not yet
    /// delivered and not in `exclude_ids`, in question order, and records them
    /// as delivered.
    pub fn collect_instant_answers(&mut self, exclude_ids: Option<&[String]>) -> (r: Vec<AnswerInfo>)
        requires
            old(self).wf(),
        ensures
            final(self).wf(),
            ({
                let ex = match exclude_ids {
                    Some(e) => strs_view(e@),
                    None => Seq::<Seq<char>>::empty(),
                };
                let got = instant_collected(old(self)@, ex);
                &&& answer_info_views(r@) == got.map_values(|q: QuestionView| answer_info_of(q))
                &&& final(self)@ == (StoreView {
                    delivered: old(self)@.delivered + got.map_values(|q: QuestionView| q.id),
                    ..old(self)@
                })
            }),
    {
        let ghost v = self@;
        let ghost ex = match exclude_ids {
            Some(e) => strs_view(e@),
            None => Seq::<Seq<char>>::empty(),
        };
        let ghost p = |q: QuestionView| instant_ready(q, v.delivered, ex);
        let ghost f = |q: QuestionView| answer_info_of(q);
        let ghost g = |q: QuestionView| q.id;
        let mut results: Vec<AnswerInfo> = Vec::new();
        let n = self.question_count();
        let mut i: usize = 0;
        proof {
            assert(v.questions.take(0).filter(p) =~= Seq::<QuestionView>::empty()) by {
                reveal(Seq::filter);
            }
            assert(answer_info_views(results@) =~= v.questions.take(0).filter(p).map_values(f));
            assert(v.delivered + v.questions.take(0).filter(p).map_values(g) =~= v.delivered);
        }
        while i < n
            invariant
                self.wf(),
                n == v.questions.len(),
                0 <= i <= n,
                p == (|q: QuestionView| instant_ready(q, v.delivered, ex)),
                f == (|q: QuestionView| answer_info_of(q)),
                g == (|q: QuestionView| q.id),
                ex == match exclude_ids {
                    Some(e) => strs_view(e@),
                    None => Seq::<Seq<char>>::empty(),
                },
                self@ == (StoreView {
                    delivered: v.delivered + v.questions.take(i as int).filter(p).map_values(g),
                    ..v
                }),
                answer_info_views(results@) == v.questions.take(i as int).filter(p).map_values(f),
                crate::state::unique_question_ids(v.questions),
            decreases n - i,
        {
            let ghost d_before = self@.delivered;
            let ghost r_before = results@;
            proof {
                assert(v.questions.take(i + 1) =~= v.questions.take(i as int).push(v.questions[i as int]));
                v.questions.take(i as int).lemma_filter_push(v.questions[i as int], p);
                assert(self@.questions == v.questions);
            }
            let q = self.question_at(i);
            let excluded = match exclude_ids {
                Some(e) => list_contains(e, q.id.as_str()),
                None => false,
            };
            let delivered = self.was_delivered(q.id.as_str());
            proof {
                // An id delivered during this call belongs to an earlier question.
                let extra = v.questions.take(i as int).filter(p).map_values(g);
                if extra.contains(q@.id) {
                    let k = choose|k: int| 0 <= k < extra.len() && extra[k] == q@.id;
                    let w = v.questions.take(i as int).filter(p)[k];
                    v.questions.take(i as int).lemma_filter_contains_rev(p, w);
                    assert(v.questions.take(i as int).filter(p).contains(w));
                    let j = choose|j: int| 0 <= j < i && v.questions.take(i as int)[j] == w;
                    assert(v.questions[j].id == v.questions[i as int].id);
                }
                assert(d_before == v.delivered + extra);
                assert(d_before.contains(q@.id) == v.delivered.contains(q@.id)) by {
                    if d_before.contains(q@.id) && !v.delivered.contains(q@.id) {
                        let k = choose|k: int| 0 <= k < d_before.len() && d_before[k] == q@.id;
                        if k < v.delivered.len() {
                            assert(v.delivered[k] == q@.id);
                        } else {
                            assert(extra[k - v.delivered.len()] == q@.id);
                        }
                    }
                    if v.delivered.contains(q@.id) {
                        let k = choose|k: int| 0 <= k < v.delivered.len() && v.delivered[k] == q@.id;
                        assert(d_before[k] == q@.id);
                    }
                }
            }
            if q.instant && q.status == QuestionStatus::Answered && q.answer.is_some() && !delivered
                && !excluded {
                let info = AnswerInfo {
                    id: q.id.clone(),
                    answer: match &q.answer {
                        Some(a) => a.clone(),
                        None => {
                            assert(false);
                            QuestionAnswer { selections: std::collections::HashMap::new(), text: None }
                        },
                    },
                };
                let id = q.id.clone();
                self.push_delivered(id);
                results.push(info);
                proof {
                    assert(answer_info_views(results@) =~= answer_info_views(r_before).push(
                        f(v.questions[i as int]),
                    ));
                    assert(self@.delivered =~= v.delivered + v.questions.take(i + 1).filter(
                        p,
                    ).map_values(g));
                }
            }
            i = i + 1;
        }
        proof {
            assert(v.questions.take(n as int) =~= v.questions);
        }
        results
    }

    /// Records the instant answers of `ids` as delivered (see
    /// [`add_delivered`]).
    pub fn mark_instant_delivered(&mut self, ids: &[String])
        requires
            old(self).wf(),
        ensures
            final(self).wf(),
            final(self)@ == (StoreView {
                delivered: add_delivered(old(self)@.delivered, strs_view(ids@)),
                ..old(self)@
            }),
    {
        let ghost v = self@;
        let ghost idv = strs_view(ids@);
        let n = ids.len();
        let mut i: usize = 0;
        proof {
            assert(idv.take(0) =~= Seq::<Seq<char>>::empty());
        }
        while i < n
            invariant
                self.wf(),
                n == ids@.len(),
                idv == strs_view(ids@),
                0 <= i <= n,
                self@ == (StoreView { delivered: add_delivered(v.delivered, idv.take(i as int)), ..v }),
            decreases n - i,
        {
            proof {
                assert(idv.take(i + 1).drop_last() =~= idv.take(i as int));
                assert(idv.take(i + 1).last() == ids@[i as int]@);
            }
            if !self.was_delivered(ids[i].as_str()) {
                self.push_delivered(ids[i].clone());
            }
            i = i + 1;
        }
        proof {
            assert(idv.take(n as int) =~= idv);
        }
    }
}

} // verus!
