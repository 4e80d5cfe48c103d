//! What the user interface asks of the store: answering, dismissing,
//! closing a session, and the full state for the first load.
use crate::question_store::{answer_post, deny_post, newly_settled, remove_with_questions_post};
use crate::state::{has_question, has_session, is_pending_id, lookup, question_index, AppState};
use crate::types::{question_views, strs_view, Question, QuestionAnswer, QuestionView, Session, SessionView};
use vstd::prelude::*;

verus! {

/// The reason given to a question the user dismissed without saying why.
pub open spec fn default_dismiss_reason() -> Seq<char> {
    seq!['d', 'i', 's', 'm', 'i', 's', 's', 'e', 'd', ' ', 'b', 'y', ' ', 'u', 's', 'e', 'r']
}

/// Submits the user's answer to question `question_id`; returns whether the
/// question was pending (see [`AppState::apply_answer`]).
pub fn submit_answer(state: &mut AppState, question_id: String, answer: QuestionAnswer) -> (r: bool)
    requires
        old(state).wf(),
    ensures
        final(state).wf(),
        r == is_pending_id(old(state)@.questions, question_id@),
        r ==> exists|now: u64|
            final(state)@ == #[trigger] answer_post(
                old(state)@,
                question_index(old(state)@.questions, question_id@),
                answer@,
                now,
            ),
        !r ==> final(state)@ == old(state)@,
{
    state.apply_answer(question_id.as_str(), answer)
}

/// Dismisses question `question_id` on the user's behalf, with `reason` or
/// "dismissed by user"; returns the denied ids (see
/// [`AppState::apply_denied`]).
pub fn dismiss_question(state: &mut AppState, question_id: String, reason: Option<String>) -> (r: Vec<
    String,
>)
    requires
        old(state).wf(),
    ensures
        final(state).wf(),
        ({
            let rv = match reason {
                Some(x) => x@,
                None => default_dismiss_reason(),
            };
            &&& strs_view(r@) == newly_settled(old(state)@.questions, seq![question_id@])
            &&& final(state)@ == deny_post(old(state)@, seq![question_id@], rv)
        }),
{
    let ids = vec![question_id];
    let fallback = "dismissed by user";
    proof {
        reveal_strlit("dismissed by user");
        assert(fallback@ =~= default_dismiss_reason());
        assert(strs_view(ids@) =~= seq![ids@[0]@]);
    }
    let r = match &reason {
        Some(x) => x.as_str(),
        None => fallback,
    };
    state.apply_denied(ids.as_slice(), r)
}

/// Closes session `session_id` from the panel; returns whether it existed
/// (see [`AppState::remove_session_with_questions`]).
pub fn remove_session(state: &mut AppState, session_id: String) -> (r: bool)
    requires
        old(state).wf(),
    ensures
        final(state).wf(),
        r == has_session(old(state)@.sessions, session_id@),
        r ==> final(state)@ == remove_with_questions_post(old(state)@, session_id@),
        !r ==> final(state)@ == old(state)@,
{
    state.remove_session_with_questions(session_id.as_str())
}

/// The questions a session lists that the store holds, in the session's
/// order.
pub open spec fn session_questions(s: SessionView, qs: Seq<QuestionView>) -> Seq<QuestionView> {
    s.question_ids.filter(|id: Seq<char>| has_question(qs, id)).map_values(
        |id: Seq<char>| qs[question_index(qs, id)],
    )
}

/// The questions of all sessions, session by session in session order.
pub open spec fn state_questions(ss: Seq<SessionView>, qs: Seq<QuestionView>) -> Seq<QuestionView> {
    ss.map_values(|s: SessionView| session_questions(s, qs)).flatten()
}

/// The full state for the user interface.
#[derive(Debug)]
pub struct StateSnapshot {
    pub questions: Vec<Question>,
    pub sessions: Vec<Session>,
}

impl AppState {
    /// The questions session `s` lists that the store holds.
    fn questions_listed_by(&self, s: &Session, out: &mut Vec<Question>)
        requires
            self.wf(),
        ensures
            question_views(final(out)@) == question_views(old(out)@) + session_questions(s@, self@.questions),
    {
        let ghost qs = self@.questions;
        let ghost ids = s@.question_ids;
        let ghost p = |id: Seq<char>| has_question(qs, id);
        let ghost f = |id: Seq<char>| qs[question_index(qs, id)];
        let ghost start = question_views(out@);
        let n = s.question_ids.len();
        let mut j: usize = 0;
        proof {
            assert(ids.take(0).filter(p) =~= Seq::<Seq<char>>::empty()) by {
                reveal(Seq::filter);
            }
            assert(question_views(out@) =~= start + ids.take(0).filter(p).map_values(f));
        }
        while j < n
            invariant
                self.wf(),
                qs == self@.questions,
                ids == s@.question_ids,
                n == ids.len(),
                0 <= j <= n,
                p == (|id: Seq<char>| has_question(qs, id)),
                f == (|id: Seq<char>| qs[question_index(qs, id)]),
                question_views(out@) == start + ids.take(j as int).filter(p).map_values(f),
            decreases n - j,
        {
            proof {
                assert(ids.take(j + 1) =~= ids.take(j as int).push(ids[j as int]));
                ids.take(j as int).lemma_filter_push(ids[j as int], p);
                assert(ids[j as int] == s.question_ids@[j as int]@);
            }
            let ghost before = out@;
            match self.find_question(s.question_ids[j].as_str()) {
                Some(k) => {
                    let q = self.question_at(k).clone();
                    out.push(q);
                    proof {
                        assert(question_views(out@) =~= question_views(before).push(qs[k as int]));
                        assert(ids.take(j + 1).filter(p).map_values(f) =~= ids.take(j as int).filter(
                            p,
                        ).map_values(f).push(f(ids[j as int])));
                    }
                },
                None => {},
            }
            j = j + 1;
        }
        proof {
            assert(ids.take(n as int) =~= ids);
        }
    }
}

/// The full state for the user interface's first load: every session in
/// the order they were created, and their questions, session by session, in
/// the order each session lists them.
pub fn get_state(state: &AppState) -> (r: StateSnapshot)
    requires
        state.wf(),
    ensures
        r.sessions@.map_values(|s: Session| s@) == state@.sessions,
        question_views(r.questions@) == state_questions(state@.sessions, state@.questions),
{
    let ghost ss = state@.sessions;
    let ghost qs = state@.questions;
    let ghost g = |s: SessionView| session_questions(s, qs);
    let mut questions: Vec<Question> = Vec::new();
    let mut sessions: Vec<Session> = Vec::new();
    let n = state.session_count();
    let mut i: usize = 0;
    proof {
        assert(ss.take(0).map_values(g).flatten() =~= Seq::<QuestionView>::empty());
        assert(question_views(questions@) =~= Seq::<QuestionView>::empty());
        assert(sessions@.map_values(|s: Session| s@) =~= ss.take(0));
    }
    while i < n
        invariant
            state.wf(),
            ss == state@.sessions,
            qs == state@.questions,
            n == ss.len(),
            0 <= i <= n,
            g == (|s: SessionView| session_questions(s, qs)),
            question_views(questions@) == ss.take(i as int).map_values(g).flatten(),
            sessions@.map_values(|s: Session| s@) == ss.take(i as int),
        decreases n - i,
    {
        let s = state.session_at(i);
        state.questions_listed_by(s, &mut questions);
        let ghost before = sessions@;
        sessions.push(s.clone());
        proof {
            assert(ss.take(i + 1) =~= ss.take(i as int).push(ss[i as int]));
            assert(ss.take(i + 1).map_values(g) =~= ss.take(i as int).map_values(g).push(g(ss[i as int])));
            ss.take(i as int).map_values(g).lemma_flatten_push(g(ss[i as int]));
            assert(sessions@.map_values(|s: Session| s@) =~= ss.take(i + 1));
        }
        i = i + 1;
    }
    proof {
        assert(ss.take(n as int) =~= ss);
    }
    StateSnapshot { questions, sessions }
}

/// Whether the window's page has finished loading, and whether a request to
/// show the window came before it had.
#[derive(Debug)]
pub struct WebviewReadyState {
    pub ready: bool,
    pub pending_show: bool,
}

impl WebviewReadyState {
    /// The state at start-up: not ready, nothing pending.
    pub fn new() -> (s: Self)
        ensures
            !s.ready,
            !s.pending_show,
    {
        WebviewReadyState { ready: false, pending_show: false }
    }
}

/// The page reports that it has loaded: it is ready from now on, and a show
/// request that came before is taken. Returns whether the window is to be
/// shown now.
pub fn notify_ready(ready_state: &mut WebviewReadyState) -> (show_now: bool)
    ensures
        final(ready_state).ready,
        !final(ready_state).pending_show,
        show_now == old(ready_state).pending_show,
{
    ready_state.ready = true;
    let show_now = ready_state.pending_show;
    ready_state.pending_show = false;
    show_now
}

} // verus!
