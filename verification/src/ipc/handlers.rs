//! Answering the requests of clients. A wait is answered by the caller's
//! loop, which asks [`AppState::wait_decision`](crate::state::AppState) at
//! each turn; everything else is answered here at once.
use crate::ipc::types::{item_views, AskItem, AskItemView, IpcRequest, IpcResponse, ResponseView};
use crate::question_store::{
    add_to_session_post, answers_of, dismiss_post, newly_settled, pending_of_session, resolution,
    shutdown_post,
};
use crate::state::{AppState, StoreView};
use crate::types::{opt_str_view, strs_view, Question, QuestionView, UiEventView};
use crate::types::IpcToUiEvent;
use vstd::prelude::*;

verus! {

/// The ids of a sequence of questions.
pub open spec fn ids_of(qs: Seq<QuestionView>) -> Seq<Seq<char>> {
    qs.map_values(|q: QuestionView| q.id)
}

/// The store after adding the submitted questions `items` to session `sid`
/// one after the other at time `now`, with the display name offered with the
/// first only, and the questions made.
pub open spec fn ask_many(
    v: StoreView,
    sid: Seq<char>,
    dn: Option<Seq<char>>,
    items: Seq<AskItemView>,
    now: u64,
) -> (StoreView, Seq<QuestionView>)
    decreases items.len(),
{
    if items.len() == 0 {
        (v, Seq::empty())
    } else {
        let prev = ask_many(v, sid, dn, items.drop_last(), now);
        let name = if items.len() == 1 {
            dn
        } else {
            None
        };
        let next = add_to_session_post(prev.0, sid, name, items.last(), now);
        (next.0, prev.1.push(next.1))
    }
}

/// The store and the response after an ask request at time `now`: the
/// questions are added; the user interface is told of a single question, or
/// of the batch; the response lists the new ids and the number of pending
/// questions of the session.
pub open spec fn ask_post(
    v: StoreView,
    sid: Seq<char>,
    dn: Option<Seq<char>>,
    items: Seq<AskItemView>,
    now: u64,
) -> (StoreView, ResponseView) {
    let (v1, qs) = ask_many(v, sid, dn, items, now);
    let event = if items.len() == 1 {
        UiEventView::QuestionAdded(qs[0])
    } else {
        UiEventView::QuestionsBatch(qs)
    };
    (
        StoreView { outbox: v1.outbox.push(event), ..v1 },
        ResponseView::AskOk(ids_of(qs), pending_of_session(v1.questions, sid).len()),
    )
}

/// The ids a request is about (see [`resolution`]).
pub fn resolve_ids(state: &AppState, session_id: &str, ids: Vec<String>) -> (r: Vec<String>)
    requires
        state.wf(),
    ensures
        strs_view(r@) == resolution(state@, session_id@, strs_view(ids@)),
        ids@.len() > 0 ==> r@ == ids@,
{
    if ids.len() > 0 {
        return ids;
    }
    state.resolve_question_ids(session_id, ids)
}

/// Answers an ask request at time `now` (see [`ask_post`]).
pub fn handle_ask_at(
    state: &mut AppState,
    session_id: &str,
    display_name: Option<String>,
    items: Vec<AskItem>,
    now: u64,
) -> (r: IpcResponse)
    requires
        old(state).wf(),
        old(state)@.id_counter + items@.len() <= u32::MAX,
    ensures
        final(state).wf(),
        (final(state)@, r@) == ask_post(
            old(state)@,
            session_id@,
            opt_str_view(display_name),
            item_views(items@),
            now,
        ),
{
    let ghost v = state@;
    let ghost dn = opt_str_view(display_name);
    let ghost iv = item_views(items@);
    let count = items.len();
    let mut rest = items;
    let mut made: Vec<Question> = Vec::new();
    let mut name = display_name;
    let mut k: usize = 0;
    proof {
        assert(iv.take(0) =~= Seq::<AskItemView>::empty());
        assert(item_views(rest@) =~= iv.skip(0));
    }
    while k < count
        invariant
            state.wf(),
            count == iv.len(),
            0 <= k <= count,
            item_views(rest@) == iv.skip(k as int),
            rest@.len() == count - k,
            made@.len() == k,
            state@ == ask_many(v, session_id@, dn, iv.take(k as int), now).0,
            crate::types::question_views(made@) == ask_many(v, session_id@, dn, iv.take(k as int), now).1,
            state@.id_counter == v.id_counter + k,
            v.id_counter + count <= u32::MAX,
            opt_str_view(name) == if k == 0 {
                dn
            } else {
                None
            },
        decreases count - k,
    {
        let ghost before = made@;
        let ghost rest_before = rest@;
        proof {
            assert(iv.skip(k as int)[0] == iv[k as int]);
            assert(item_views(rest@)[0] == rest@[0]@);
            assert(iv[k as int] == rest@[0]@);
            assert(iv.take(k + 1).drop_last() =~= iv.take(k as int));
            assert(iv.take(k + 1).last() == iv[k as int]);
        }
        let item = rest.remove(0);
        let dn_now = name;
        name = None;
        let q = state.add_question_to_session_at(session_id, dn_now, item, now);
        made.push(q);
        proof {
            assert(rest@ == rest_before.remove(0));
            assert forall|j: int| 0 <= j < rest@.len() implies item_views(rest@)[j] == iv.skip(k + 1)[j] by {
                assert(rest@[j] == rest_before[j + 1]);
                assert(item_views(rest_before)[j + 1] == iv.skip(k as int)[j + 1]);
            }
            assert(item_views(rest@) =~= iv.skip(k + 1));
            assert(crate::types::question_views(made@) =~= crate::types::question_views(before).push(
                made@.last()@,
            ));
        }
        k = k + 1;
    }
    proof {
        assert(iv.take(count as int) =~= iv);
    }
    let ghost qs = crate::types::question_views(made@);
    if count == 1 {
        state.emit_question_added(&made[0]);
        let pending = state.get_session_pending_count(session_id);
        let ids = vec![made[0].id.clone()];
        proof {
            assert(qs.len() == 1);
            assert(qs[0] == made@[0]@);
            assert(strs_view(ids@)[0] == made@[0].id@);
            assert(strs_view(ids@) =~= ids_of(qs));
        }
        IpcResponse::AskOk { ids, pending }
    } else {
        let mut ids: Vec<String> = Vec::new();
        let mut i: usize = 0;
        while i < made.len()
            invariant
                0 <= i <= made@.len(),
                qs == crate::types::question_views(made@),
                strs_view(ids@) == ids_of(qs.take(i as int)),
                ids@.len() == i,
            decreases made@.len() - i,
        {
            let ghost before = ids@;
            let id = made[i].id.clone();
            ids.push(id);
            proof {
                assert(qs[i as int] == made@[i as int]@);
                assert(strs_view(ids@) =~= strs_view(before).push(id@));
                assert(ids_of(qs.take(i + 1)) =~= ids_of(qs.take(i as int)).push(qs[i as int].id));
            }
            i = i + 1;
        }
        assert(qs.take(made@.len() as int) =~= qs);
        let pending = state.get_session_pending_count(session_id);
        state.emit_questions_batch(made.as_slice());
        IpcResponse::AskOk { ids, pending }
    }
}

/// Answers an ask request (see [`handle_ask_at`]; the new session, if any,
/// and the questions record the current time).
pub fn handle_ask(
    state: &mut AppState,
    session_id: &str,
    display_name: Option<String>,
    items: Vec<AskItem>,
) -> (r: IpcResponse)
    requires
        old(state).wf(),
        old(state)@.id_counter + items@.len() <= u32::MAX,
    ensures
        final(state).wf(),
        exists|now: u64|
            (final(state)@, r@) == #[trigger] ask_post(
                old(state)@,
                session_id@,
                opt_str_view(display_name),
                item_views(items@),
                now,
            ),
{
    let now = crate::state::now_millis();
    handle_ask_at(state, session_id, display_name, items, now)
}

/// Answers a get request: a snapshot of the questions the request is about.
pub fn handle_get(state: &AppState, session_id: &str, ids: Vec<String>) -> (r: IpcResponse)
    requires
        state.wf(),
    ensures
        r@ == ResponseView::AnswersOk(
            answers_of(state@.questions, resolution(state@, session_id@, strs_view(ids@))),
        ),
{
    let effective = state.resolve_question_ids(session_id, ids);
    let result = state.get_answers(effective.as_slice());
    IpcResponse::from_answers_result(result)
}

/// Answers a dismiss request: dismisses the pending questions the request
/// is about and lists them.
pub fn handle_dismiss(state: &mut AppState, session_id: &str, ids: Vec<String>, reason: Option<&str>) -> (r:
    IpcResponse)
    requires
        old(state).wf(),
    ensures
        final(state).wf(),
        ({
            let targets = resolution(old(state)@, session_id@, strs_view(ids@));
            let rv = match reason {
                Some(x) => Some(x@),
                None => None,
            };
            &&& r@ == ResponseView::DismissOk(newly_settled(old(state)@.questions, targets))
            &&& final(state)@ == dismiss_post(old(state)@, targets, rv)
        }),
{
    let effective = state.resolve_question_ids(session_id, ids);
    let dismissed = state.dismiss_questions(effective.as_slice(), reason);
    IpcResponse::DismissOk { dismissed }
}

/// Answers an open request: the user interface is asked to show its window.
pub fn handle_open_ui(state: &mut AppState) -> (r: IpcResponse)
    requires
        old(state).wf(),
    ensures
        final(state).wf(),
        final(state)@ == (StoreView { outbox: old(state)@.outbox.push(UiEventView::ShowWindow), ..old(state)@ }),
        r@ == ResponseView::UiOk,
{
    state.push_event(IpcToUiEvent::ShowWindow);
    IpcResponse::UiOk
}

/// Answers a shutdown request: the store begins its shutdown (see
/// [`shutdown_post`]) and the user interface is asked to exit.
pub fn handle_shutdown(state: &mut AppState) -> (r: IpcResponse)
    requires
        old(state).wf(),
    ensures
        final(state).wf(),
        final(state)@ == (StoreView {
            outbox: shutdown_post(old(state)@).outbox.push(UiEventView::Shutdown),
            ..shutdown_post(old(state)@)
        }),
        r@ == ResponseView::Pong,
{
    state.begin_shutdown();
    state.push_event(IpcToUiEvent::Shutdown);
    IpcResponse::Pong
}

/// What a request asks of the caller: a response to send at once, or a wait
/// to run on the resolved ids.
#[derive(Debug)]
pub enum Dispatched {
    Reply(IpcResponse),
    Wait { ids: Vec<String>, require_all: bool, timeout_secs: Option<u64> },
}

/// The store, and what the caller is to do, after request `req` at time
/// `now`.
pub open spec fn dispatch_post(v: StoreView, req: IpcRequest, now: u64) -> (StoreView, DispatchedView) {
    match req {
        IpcRequest::Ask { session_id, display_name, questions } => {
            let (v1, r) = ask_post(v, session_id@, opt_str_view(display_name), item_views(questions@), now);
            (v1, DispatchedView::Reply(r))
        },
        IpcRequest::Wait { session_id, ids, require_all, timeout_secs } => (
            v,
            DispatchedView::Wait(resolution(v, session_id@, strs_view(ids@)), require_all, timeout_secs),
        ),
        IpcRequest::Get { session_id, ids } => (
            v,
            DispatchedView::Reply(
                ResponseView::AnswersOk(answers_of(v.questions, resolution(v, session_id@, strs_view(ids@)))),
            ),
        ),
        IpcRequest::Dismiss { session_id, ids, reason } => {
            let targets = resolution(v, session_id@, strs_view(ids@));
            (
                dismiss_post(v, targets, opt_str_view(reason)),
                DispatchedView::Reply(ResponseView::DismissOk(newly_settled(v.questions, targets))),
            )
        },
        IpcRequest::OpenUi => (
            StoreView { outbox: v.outbox.push(UiEventView::ShowWindow), ..v },
            DispatchedView::Reply(ResponseView::UiOk),
        ),
        IpcRequest::Shutdown => (
            StoreView { outbox: shutdown_post(v).outbox.push(UiEventView::Shutdown), ..shutdown_post(v) },
            DispatchedView::Reply(ResponseView::Pong),
        ),
        IpcRequest::Ping => (v, DispatchedView::Reply(ResponseView::Pong)),
    }
}

/// The model of what a request asks of the caller.
pub enum DispatchedView {
    Reply(ResponseView),
    Wait(Seq<Seq<char>>, bool, Option<u64>),
}

impl View for Dispatched {
    type V = DispatchedView;

    open spec fn view(&self) -> DispatchedView {
        match self {
            Dispatched::Reply(r) => DispatchedView::Reply(r@),
            Dispatched::Wait { ids, require_all, timeout_secs } => DispatchedView::Wait(
                strs_view(ids@),
                *require_all,
                *timeout_secs,
            ),
        }
    }
}

/// The number of questions an ask request submits (none for other requests).
pub open spec fn asked_count(req: IpcRequest) -> nat {
    match req {
        IpcRequest::Ask { questions, .. } => questions@.len(),
        _ => 0,
    }
}

/// Handles request `req` at time `now` (see [`dispatch_post`]).
pub fn dispatch_at(state: &mut AppState, req: IpcRequest, now: u64) -> (d: Dispatched)
    requires
        old(state).wf(),
        old(state)@.id_counter + asked_count(req) <= u32::MAX,
    ensures
        final(state).wf(),
        (final(state)@, d@) == dispatch_post(old(state)@, req, now),
{
    match req {
        IpcRequest::Ask { session_id, display_name, questions } => Dispatched::Reply(
            handle_ask_at(state, session_id.as_str(), display_name, questions, now),
        ),
        IpcRequest::Wait { session_id, ids, require_all, timeout_secs } => {
            let effective = resolve_ids(state, session_id.as_str(), ids);
            Dispatched::Wait { ids: effective, require_all, timeout_secs }
        },
        IpcRequest::Get { session_id, ids } => Dispatched::Reply(
            handle_get(state, session_id.as_str(), ids),
        ),
        IpcRequest::Dismiss { session_id, ids, reason } => {
            let r = match &reason {
                Some(x) => Some(x.as_str()),
                None => None,
            };
            Dispatched::Reply(handle_dismiss(state, session_id.as_str(), ids, r))
        },
        IpcRequest::OpenUi => Dispatched::Reply(handle_open_ui(state)),
        IpcRequest::Shutdown => Dispatched::Reply(handle_shutdown(state)),
        IpcRequest::Ping => Dispatched::Reply(IpcResponse::Pong),
    }
}

/// Handles request `req` (see [`dispatch_at`]; an ask records the current
/// time).
pub fn dispatch(state: &mut AppState, req: IpcRequest) -> (d: Dispatched)
    requires
        old(state).wf(),
        old(state)@.id_counter + asked_count(req) <= u32::MAX,
    ensures
        final(state).wf(),
        exists|now: u64| (final(state)@, d@) == #[trigger] dispatch_post(old(state)@, req, now),
{
    let now = crate::state::now_millis();
    dispatch_at(state, req, now)
}

} // verus!
