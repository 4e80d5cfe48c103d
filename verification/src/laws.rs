//! The laws of the store: what a read gives back after a write, what every
//! operation keeps, and how operations combine.
use crate::question_store::{
    add_delivered, add_to_session_post, answer_post, answered, answers_of, cleaned, consumed, deny_post,
    dismiss_post, empty_result, ensure_session_post, instant_collected, newly_settled, no_consumed_session,
    pending_count, remove_with_questions_post, resolved, session_removed_reason, settle_listed,
    settled, shutdown_post,
};
use crate::state::{
    has_question, has_session, is_pending_id, question_index, session_index, unique_question_ids,
    unique_session_ids, StoreView,
};
use crate::text::{decimal, display_name_for};
use crate::types::{
    AnswerInfoView, AnswerView, DeniedInfoView, QuestionStatus, QuestionView, ResultView,
    SessionView,
};
use crate::ipc::types::AskItemView;
use vstd::prelude::*;

verus! {

/// Two question sequences list the same ids at the same positions.
pub open spec fn same_ids(a: Seq<QuestionView>, b: Seq<QuestionView>) -> bool {
    a.len() == b.len() && forall|k: int| 0 <= k < a.len() ==> #[trigger] a[k].id == b[k].id
}

/// Every question of `a` that is no longer pending is the same in `b`.
pub open spec fn settled_kept(a: Seq<QuestionView>, b: Seq<QuestionView>) -> bool {
    forall|k: int|
        0 <= k < a.len() && #[trigger] a[k].status != QuestionStatus::Pending ==> b[k] == a[k]
}

/// Questions with the same ids at the same positions keep ids unique and
/// find each id at the same position.
proof fn lemma_same_ids_index(a: Seq<QuestionView>, b: Seq<QuestionView>, id: Seq<char>)
    requires
        unique_question_ids(a),
        same_ids(a, b),
    ensures
        unique_question_ids(b),
        has_question(a, id) <==> has_question(b, id),
        has_question(a, id) ==> question_index(b, id) == question_index(a, id),
{
    assert forall|i: int, j: int|
        0 <= i < b.len() && 0 <= j < b.len() && #[trigger] b[i].id == #[trigger] b[j].id implies i
        == j by {
        assert(a[i].id == b[i].id && a[j].id == b[j].id);
    }
    if has_question(a, id) {
        let i = question_index(a, id);
        assert(b[i].id == id);
        let j = question_index(b, id);
        assert(a[j].id == b[j].id);
    }
    if has_question(b, id) {
        let j = question_index(b, id);
        assert(a[j].id == id);
    }
}

/// The clean-up leaves no consumed session.
pub proof fn lemma_cleaned_leaves_no_consumed_session(v: StoreView)
    ensures
        no_consumed_session(cleaned(v)),
        cleaned(v).questions == v.questions,
{
    let p = |s: SessionView| !consumed(s, v.questions);
    assert forall|i: int| 0 <= i < cleaned(v).sessions.len() implies !consumed(
        #[trigger] cleaned(v).sessions[i],
        cleaned(v).questions,
    ) by {
        v.sessions.lemma_filter_pred(p, i);
        assert(p(v.sessions.filter(p)[i]));
    }
}

/// Once a question is answered, reading it gives back the answer.
pub proof fn lemma_answer_is_read_back(v: StoreView, id: Seq<char>, answer: AnswerView, now: u64)
    requires
        v.well_formed(),
        is_pending_id(v.questions, id),
    ensures
        answers_of(answer_post(v, question_index(v.questions, id), answer, now).questions, seq![id])
            == (ResultView {
            answered: seq![AnswerInfoView { id, answer }],
            ..empty_result()
        }),
{
    let i = question_index(v.questions, id);
    let qs2 = v.questions.update(i, answered(v.questions[i], answer, now));
    assert(same_ids(v.questions, qs2));
    lemma_same_ids_index(v.questions, qs2, id);
    lemma_cleaned_leaves_no_consumed_session(
        StoreView { questions: qs2, wake_pending: true, ..v },
    );
    assert(answer_post(v, i, answer, now).questions == qs2);
    assert(seq![id].drop_last() =~= Seq::<Seq<char>>::empty());
    assert(seq![id].last() == id);
    assert(answers_of(qs2, Seq::<Seq<char>>::empty()) == empty_result());
    assert(v.questions[i].id == id);
    assert(qs2[i].id == id);
    assert(crate::state::lookup(qs2, id) == Some(qs2[i]));
    assert((ResultView {
        answered: empty_result().answered.push(AnswerInfoView { id, answer }),
        ..empty_result()
    }) =~= (ResultView { answered: seq![AnswerInfoView { id, answer }], ..empty_result() }));
}

/// Once a question is denied by the user, reading it shows it denied,
/// with the reason.
pub proof fn lemma_denial_is_read_back(v: StoreView, id: Seq<char>, reason: Seq<char>)
    requires
        v.well_formed(),
        is_pending_id(v.questions, id),
    ensures
        answers_of(deny_post(v, seq![id], reason).questions, seq![id]) == (ResultView {
            denied: seq![DeniedInfoView { id, reason }],
            ..empty_result()
        }),
{
    let ids = seq![id];
    let i = question_index(v.questions, id);
    assert(ids.drop_last() =~= Seq::<Seq<char>>::empty());
    assert(ids.last() == id);
    assert(newly_settled(v.questions, ids.drop_last()) =~= Seq::<Seq<char>>::empty());
    assert(!Seq::<Seq<char>>::empty().contains(id));
    assert(Seq::<Seq<char>>::empty().push(id) =~= seq![id]);
    assert(newly_settled(v.questions, ids) == seq![id]);
    let qs2 = settle_listed(v.questions, ids, QuestionStatus::Denied, Some(reason));
    assert(same_ids(v.questions, qs2));
    lemma_same_ids_index(v.questions, qs2, id);
    assert(ids.contains(id)) by {
        assert(ids[0] == id);
    }
    assert(qs2[i] == settled(v.questions[i], QuestionStatus::Denied, Some(reason)));
    lemma_cleaned_leaves_no_consumed_session(
        StoreView { questions: qs2, wake_pending: true, ..v },
    );
    assert(deny_post(v, ids, reason).questions == qs2);
    assert(answers_of(qs2, Seq::<Seq<char>>::empty()) == empty_result());
    assert(v.questions[i].id == id);
    assert(crate::state::lookup(qs2, id) == Some(qs2[i]));
    assert((ResultView {
        denied: empty_result().denied.push(DeniedInfoView { id, reason }),
        ..empty_result()
    }) =~= (ResultView { denied: seq![DeniedInfoView { id, reason }], ..empty_result() }));
}

/// A question dismissed by a client reads back as cancelled, with the
/// reason given ("" when none was).
pub proof fn lemma_dismissal_is_read_back(v: StoreView, id: Seq<char>, reason: Option<Seq<char>>)
    requires
        v.well_formed(),
        is_pending_id(v.questions, id),
    ensures
        answers_of(dismiss_post(v, seq![id], reason).questions, seq![id]) == (ResultView {
            denied: seq![
                DeniedInfoView {
                    id,
                    reason: match reason {
                        Some(r) => r,
                        None => Seq::empty(),
                    },
                },
            ],
            ..empty_result()
        }),
{
    let ids = seq![id];
    let i = question_index(v.questions, id);
    assert(ids.drop_last() =~= Seq::<Seq<char>>::empty());
    assert(ids.last() == id);
    assert(newly_settled(v.questions, ids.drop_last()) =~= Seq::<Seq<char>>::empty());
    assert(!Seq::<Seq<char>>::empty().contains(id));
    assert(Seq::<Seq<char>>::empty().push(id) =~= seq![id]);
    assert(newly_settled(v.questions, ids) == seq![id]);
    let qs2 = settle_listed(v.questions, ids, QuestionStatus::Dismissed, reason);
    assert(same_ids(v.questions, qs2));
    lemma_same_ids_index(v.questions, qs2, id);
    assert(ids.contains(id)) by {
        assert(ids[0] == id);
    }
    assert(qs2[i] == settled(v.questions[i], QuestionStatus::Dismissed, reason));
    lemma_cleaned_leaves_no_consumed_session(
        StoreView {
            questions: qs2,
            wake_pending: true,
            outbox: v.outbox.push(crate::types::UiEventView::QuestionsDismissed(seq![id])),
            ..v
        },
    );
    assert(dismiss_post(v, ids, reason).questions == qs2);
    assert(answers_of(qs2, Seq::<Seq<char>>::empty()) == empty_result());
    assert(v.questions[i].id == id);
    assert(crate::state::lookup(qs2, id) == Some(qs2[i]));
    let r = match reason {
        Some(r) => r,
        None => Seq::empty(),
    };
    assert((ResultView {
        denied: empty_result().denied.push(DeniedInfoView { id, reason: r }),
        ..empty_result()
    }) =~= (ResultView { denied: seq![DeniedInfoView { id, reason: r }], ..empty_result() }));
}

/// Answering keeps every question (same ids in the same order), leaves
/// every settled question as it was, and leaves no consumed session.
pub proof fn lemma_answer_keeps_questions(v: StoreView, id: Seq<char>, answer: AnswerView, now: u64)
    requires
        v.well_formed(),
        is_pending_id(v.questions, id),
    ensures
        same_ids(v.questions, answer_post(v, question_index(v.questions, id), answer, now).questions),
        settled_kept(v.questions, answer_post(v, question_index(v.questions, id), answer, now).questions),
        no_consumed_session(answer_post(v, question_index(v.questions, id), answer, now)),
{
    let i = question_index(v.questions, id);
    let qs2 = v.questions.update(i, answered(v.questions[i], answer, now));
    lemma_cleaned_leaves_no_consumed_session(StoreView { questions: qs2, wake_pending: true, ..v });
}

/// Denying keeps every question, leaves every settled question as it
/// was, and, when something was denied, leaves no consumed session.
pub proof fn lemma_denial_keeps_questions(v: StoreView, ids: Seq<Seq<char>>, reason: Seq<char>)
    requires
        v.well_formed(),
    ensures
        same_ids(v.questions, deny_post(v, ids, reason).questions),
        settled_kept(v.questions, deny_post(v, ids, reason).questions),
        newly_settled(v.questions, ids).len() > 0 ==> no_consumed_session(deny_post(v, ids, reason)),
{
    if newly_settled(v.questions, ids).len() > 0 {
        let qs2 = settle_listed(v.questions, ids, QuestionStatus::Denied, Some(reason));
        lemma_cleaned_leaves_no_consumed_session(StoreView { questions: qs2, wake_pending: true, ..v });
    }
}

/// Dismissing keeps every question, leaves every settled question as
/// it was, and, when something was dismissed, leaves no consumed session.
pub proof fn lemma_dismissal_keeps_questions(v: StoreView, ids: Seq<Seq<char>>, reason: Option<Seq<char>>)
    requires
        v.well_formed(),
    ensures
        same_ids(v.questions, dismiss_post(v, ids, reason).questions),
        settled_kept(v.questions, dismiss_post(v, ids, reason).questions),
        newly_settled(v.questions, ids).len() > 0 ==> no_consumed_session(dismiss_post(v, ids, reason)),
{
    let d = newly_settled(v.questions, ids);
    if d.len() > 0 {
        let qs2 = settle_listed(v.questions, ids, QuestionStatus::Dismissed, reason);
        lemma_cleaned_leaves_no_consumed_session(
            StoreView {
                questions: qs2,
                wake_pending: true,
                outbox: v.outbox.push(crate::types::UiEventView::QuestionsDismissed(d)),
                ..v
            },
        );
    }
}

/// The shutdown keeps every question and every settled question, and
/// leaves nothing pending.
pub proof fn lemma_shutdown_settles_everything(v: StoreView)
    ensures
        same_ids(v.questions, shutdown_post(v).questions),
        settled_kept(v.questions, shutdown_post(v).questions),
        pending_count(shutdown_post(v).questions) == 0,
        shutdown_post(v).shutting_down,
{
    let qs = shutdown_post(v).questions;
    let p = |q: QuestionView| q.status == QuestionStatus::Pending;
    if qs.filter(p).len() > 0 {
        let x = qs.filter(p)[0];
        assert(qs.filter(p).contains(x));
        qs.lemma_filter_pred(p, 0);
        qs.lemma_filter_contains_rev(p, x);
        let k = choose|k: int| 0 <= k < qs.len() && qs[k] == x;
        assert(qs[k].status != QuestionStatus::Pending);
    }
}

/// Making sure a session exists twice (with no new name) is the same
/// as doing it once, and gives the same name.
pub proof fn lemma_ensure_session_idempotent(v: StoreView, sid: Seq<char>, t1: u64, t2: u64)
    requires
        v.well_formed(),
    ensures
        ensure_session_post(ensure_session_post(v, sid, None, t1).0, sid, None, t2) == ensure_session_post(
            v,
            sid,
            None,
            t1,
        ),
{
    let (v1, n1) = ensure_session_post(v, sid, None, t1);
    if !has_session(v.sessions, sid) {
        let last = v1.sessions.len() - 1;
        assert(v1.sessions[last].id == sid);
        let j = session_index(v1.sessions, sid);
        if j != last {
            assert(v.sessions[j].id == sid);
        }
    }
}

/// A new question gets an id no question had, and the other sessions'
/// question lists do not change.
pub proof fn lemma_new_question_is_fresh_and_isolated(
    v: StoreView,
    sid: Seq<char>,
    dn: Option<Seq<char>>,
    item: AskItemView,
    now: u64,
    other: Seq<char>,
)
    requires
        v.well_formed(),
        has_session(v.sessions, other),
        other != sid,
    ensures
        !has_question(v.questions, add_to_session_post(v, sid, dn, item, now).1.id),
        has_session(add_to_session_post(v, sid, dn, item, now).0.sessions, other),
        ({
            let post = add_to_session_post(v, sid, dn, item, now).0;
            post.sessions[session_index(post.sessions, other)].question_ids == v.sessions[session_index(
                v.sessions,
                other,
            )].question_ids
        }),
{
    let v1 = ensure_session_post(v, sid, dn, now).0;
    let id = decimal(v1.id_counter + 1);
    if has_question(v.questions, id) {
        let i = question_index(v.questions, id);
        assert(crate::state::issued(v.questions[i].id, v.id_counter));
        let k = choose|k: nat| 1 <= k <= v.id_counter && #[trigger] decimal(k) == v.questions[i].id;
        crate::text::lemma_decimal_injective(k, v1.id_counter + 1);
    }
    let jo = session_index(v.sessions, other);
    assert(v.sessions[jo].id == other);
    // The other session keeps its place through the ensure step.
    if has_session(v.sessions, sid) {
        let js = session_index(v.sessions, sid);
        assert(v.sessions[js].id == sid);
        assert(js != jo);
    }
    assert(v1.sessions[jo] == v.sessions[jo]);
    assert(unique_session_ids(v1.sessions)) by {
        if !has_session(v.sessions, sid) {
            assert forall|a: int, b: int|
                0 <= a < v1.sessions.len() && 0 <= b < v1.sessions.len() && #[trigger] v1.sessions[a].id
                    == #[trigger] v1.sessions[b].id implies a == b by {
                let n = v.sessions.len() as int;
                if a == n && b < n {
                    assert(v.sessions[b].id == sid);
                } else if b == n && a < n {
                    assert(v.sessions[a].id == sid);
                }
            }
        } else {
            let js = session_index(v.sessions, sid);
            assert forall|a: int, b: int|
                0 <= a < v1.sessions.len() && 0 <= b < v1.sessions.len() && #[trigger] v1.sessions[a].id
                    == #[trigger] v1.sessions[b].id implies a == b by {
                assert(v1.sessions[a].id == v.sessions[a].id);
                assert(v1.sessions[b].id == v.sessions[b].id);
            }
        }
    }
    let j1 = session_index(v1.sessions, other);
    assert(v1.sessions[j1].id == other);
    assert(j1 == jo);
    let jsid = session_index(v1.sessions, sid);
    if has_session(v.sessions, sid) {
        let js = session_index(v.sessions, sid);
        assert(v1.sessions[js].id == sid);
    } else {
        assert(v1.sessions[v1.sessions.len() - 1].id == sid);
    }
    assert(v1.sessions[jsid].id == sid);
    assert(jsid != jo);
    let post = add_to_session_post(v, sid, dn, item, now).0;
    assert(post.sessions[jo] == v1.sessions[jo]);
    assert(post.sessions[jo].id == other);
    let jp = session_index(post.sessions, other);
    assert(post.sessions[jp].id == other);
    if jp != jo {
        if jp == jsid {
            assert(post.sessions[jp].id == sid);
        } else {
            assert(post.sessions[jp] == v1.sessions[jp]);
        }
    }
}

/// Removing a session with its questions keeps every question, leaves
/// every settled question as it was, and dismisses each pending question of
/// that session with the reason "session removed".
pub proof fn lemma_session_removal_keeps_questions(v: StoreView, sid: Seq<char>)
    requires
        v.well_formed(),
        has_session(v.sessions, sid),
    ensures
        same_ids(v.questions, remove_with_questions_post(v, sid).questions),
        settled_kept(v.questions, remove_with_questions_post(v, sid).questions),
        forall|k: int|
            0 <= k < v.questions.len() && v.questions[k].session_id == sid && #[trigger] v.questions[k].status
                == QuestionStatus::Pending ==> remove_with_questions_post(v, sid).questions[k] == settled(
                v.questions[k],
                QuestionStatus::Dismissed,
                Some(session_removed_reason()),
            ),
{
    let v1 = StoreView { sessions: v.sessions.remove(session_index(v.sessions, sid)), ..v };
    let pend = crate::question_store::pending_of_session(v.questions, sid);
    let f = |q: QuestionView| q.id;
    let p = |q: QuestionView| q.session_id == sid && q.status == QuestionStatus::Pending;
    assert forall|k: int|
        0 <= k < v.questions.len() && v.questions[k].session_id == sid && #[trigger] v.questions[k].status
            == QuestionStatus::Pending implies remove_with_questions_post(v, sid).questions[k] == settled(
        v.questions[k],
        QuestionStatus::Dismissed,
        Some(session_removed_reason()),
    ) by {
        let q = v.questions[k];
        v.questions.lemma_filter_contains(p, k);
        assert(v.questions.filter(p).contains(q));
        let m = choose|m: int| 0 <= m < v.questions.filter(p).len() && v.questions.filter(p)[m] == q;
        assert(pend[m] == q.id);
        assert(pend.contains(q.id));
        assert(question_index(v.questions, q.id) == k) by {
            let j = question_index(v.questions, q.id);
            assert(v.questions[j].id == q.id);
        }
        assert(is_pending_id(v.questions, q.id));
        crate::question_store::lemma_newly_settled_contains(v.questions, pend, q.id);
    }
}

/// A wait is over as soon as one of its instant questions is answered,
/// whether it waits for all questions or for any.
pub proof fn lemma_instant_answer_ends_wait(r: ResultView, require_all: bool, qs: Seq<QuestionView>, i: int)
    requires
        0 <= i < r.answered.len(),
        crate::question_store::is_instant_id(qs, r.answered[i].id),
    ensures
        resolved(r, require_all, qs),
{
}

/// The id of a question added to a session is new, and the session now
/// lists it last.
pub proof fn lemma_new_question_id_fresh(
    v: StoreView,
    sid: Seq<char>,
    dn: Option<Seq<char>>,
    item: AskItemView,
    now: u64,
)
    requires
        v.well_formed(),
    ensures
        !has_question(v.questions, add_to_session_post(v, sid, dn, item, now).1.id),
        add_to_session_post(v, sid, dn, item, now).0.questions == v.questions.push(
            add_to_session_post(v, sid, dn, item, now).1,
        ),
        add_to_session_post(v, sid, dn, item, now).1.status == QuestionStatus::Pending,
        add_to_session_post(v, sid, dn, item, now).1.id == decimal(v.id_counter + 1),
{
    let v1 = ensure_session_post(v, sid, dn, now).0;
    assert(v1.questions == v.questions);
    assert(v1.id_counter == v.id_counter);
    let id = decimal(v1.id_counter + 1);
    if has_question(v.questions, id) {
        let i = question_index(v.questions, id);
        assert(crate::state::issued(v.questions[i].id, v.id_counter));
        let k = choose|k: nat| 1 <= k <= v.id_counter && #[trigger] decimal(k) == v.questions[i].id;
        crate::text::lemma_decimal_injective(k, v1.id_counter + 1);
    }
}

/// Right after a question is asked, reading it shows it pending, and
/// the answer to the ask names it.
pub proof fn lemma_asked_question_reads_pending(
    v: StoreView,
    sid: Seq<char>,
    dn: Option<Seq<char>>,
    item: AskItemView,
    now: u64,
)
    requires
        v.well_formed(),
    ensures
        ({
            let (post, resp) = crate::ipc::handlers::ask_post(v, sid, dn, seq![item], now);
            let id = decimal(v.id_counter + 1);
            &&& resp matches crate::ipc::types::ResponseView::AskOk(ids, _) && ids == seq![id]
            &&& answers_of(post.questions, seq![id]) == (ResultView { pending: seq![id], ..empty_result() })
        }),
{
    let items = seq![item];
    assert(items.drop_last() =~= Seq::<AskItemView>::empty());
    assert(items.last() == item);
    let (v2, q) = add_to_session_post(v, sid, dn, item, now);
    lemma_new_question_id_fresh(v, sid, dn, item, now);
    assert(crate::ipc::handlers::ask_many(v, sid, dn, items.drop_last(), now) == (
        v,
        Seq::<QuestionView>::empty(),
    ));
    assert(crate::ipc::handlers::ask_many(v, sid, dn, items, now) == (v2, Seq::<QuestionView>::empty().push(q)));
    let id = decimal(v.id_counter + 1);
    assert(q.id == id);
    let qs = v2.questions;
    let n = v.questions.len() as int;
    assert(qs[n] == q);
    assert(has_question(qs, id));
    assert(question_index(qs, id) == n) by {
        let j = question_index(qs, id);
        if j < n {
            assert(v.questions[j].id == id);
        }
    }
    assert(crate::state::lookup(qs, id) == Some(q));
    assert(seq![id].drop_last() =~= Seq::<Seq<char>>::empty());
    assert(answers_of(qs, Seq::<Seq<char>>::empty()) == empty_result());
    assert(crate::ipc::handlers::ids_of(Seq::<QuestionView>::empty().push(q)) =~= seq![id]);
    assert((ResultView { pending: empty_result().pending.push(id), ..empty_result() }) =~= (ResultView {
        pending: seq![id],
        ..empty_result()
    }));
}

/// An instant answer is handed out at most once: after a collection, a
/// later collection (whatever it excludes) names none of the questions the
/// first one handed out.
pub proof fn lemma_instant_answer_handed_out_once(v: StoreView, ex1: Seq<Seq<char>>, ex2: Seq<Seq<char>>)
    ensures
        ({
            let got = instant_collected(v, ex1);
            let v2 = StoreView { delivered: v.delivered + got.map_values(|q: QuestionView| q.id), ..v };
            let again = instant_collected(v2, ex2);
            forall|i: int, j: int| 0 <= i < got.len() && 0 <= j < again.len() ==> #[trigger] got[i].id != #[trigger] again[j].id
        }),
{
    broadcast use vstd::seq_lib::group_filter_ensures;

    let got = instant_collected(v, ex1);
    let ids = got.map_values(|q: QuestionView| q.id);
    let d2 = v.delivered + ids;
    let v2 = StoreView { delivered: d2, ..v };
    let again = instant_collected(v2, ex2);
    assert forall|i: int, j: int| 0 <= i < got.len() && 0 <= j < again.len() implies #[trigger] got[i].id
        != #[trigger] again[j].id by {
        let p = |q: QuestionView| crate::question_store::instant_ready(q, d2, ex2);
        assert(p(v2.questions.filter(p)[j]));
        assert(d2[v.delivered.len() + i] == got[i].id);
        assert(d2.contains(got[i].id));
    }
}

/// Marking ids delivered records each of them.
proof fn lemma_add_delivered_contains(d: Seq<Seq<char>>, ids: Seq<Seq<char>>, k: int)
    requires
        0 <= k < ids.len(),
    ensures
        add_delivered(d, ids).contains(ids[k]),
    decreases ids.len(),
{
    let dl = ids.drop_last();
    let prev = add_delivered(d, dl);
    if k < ids.len() - 1 {
        lemma_add_delivered_contains(d, dl, k);
        assert(dl[k] == ids[k]);
        if !prev.contains(ids.last()) {
            let w = choose|w: int| 0 <= w < prev.len() && prev[w] == ids[k];
            assert(prev.push(ids.last())[w] == ids[k]);
        }
    } else {
        if !prev.contains(ids.last()) {
            assert(prev.push(ids.last())[prev.len() as int] == ids.last());
        }
    }
}

/// Once ids are marked delivered, no collection hands out their answers.
pub proof fn lemma_marked_answers_not_handed_out(v: StoreView, ids: Seq<Seq<char>>, ex: Seq<Seq<char>>)
    ensures
        ({
            let v2 = StoreView { delivered: add_delivered(v.delivered, ids), ..v };
            let got = instant_collected(v2, ex);
            forall|j: int| 0 <= j < got.len() ==> !ids.contains(#[trigger] got[j].id)
        }),
{
    broadcast use vstd::seq_lib::group_filter_ensures;

    let d2 = add_delivered(v.delivered, ids);
    let v2 = StoreView { delivered: d2, ..v };
    let got = instant_collected(v2, ex);
    assert forall|j: int| 0 <= j < got.len() implies !ids.contains(#[trigger] got[j].id) by {
        let p = |q: QuestionView| crate::question_store::instant_ready(q, d2, ex);
        assert(p(v2.questions.filter(p)[j]));
        if ids.contains(got[j].id) {
            let k = choose|k: int| 0 <= k < ids.len() && ids[k] == got[j].id;
            lemma_add_delivered_contains(v.delivered, ids, k);
        }
    }
}

/// Removing a session with its questions removes exactly that session's
/// entry: the session is gone, every question that is not a pending question
/// of that session is unchanged, and the user interface is told last that the
/// session was removed with its questions discarded.
pub proof fn lemma_session_removal_touches_only_that_session(v: StoreView, sid: Seq<char>)
    requires
        v.well_formed(),
        has_session(v.sessions, sid),
    ensures
        ({
            let post = remove_with_questions_post(v, sid);
            &&& !has_session(post.sessions, sid)
            &&& post.questions.len() == v.questions.len()
            &&& forall|k: int|
                0 <= k < v.questions.len() && !(v.questions[k].session_id == sid && v.questions[k].status
                    == QuestionStatus::Pending) ==> #[trigger] post.questions[k] == v.questions[k]
            &&& post.outbox.last() == crate::types::UiEventView::SessionRemoved(sid, false)
        }),
{
    broadcast use vstd::seq_lib::group_filter_ensures;

    let post = remove_with_questions_post(v, sid);
    let j = session_index(v.sessions, sid);
    let ss1 = v.sessions.remove(j);
    assert(!has_session(ss1, sid)) by {
        if has_session(ss1, sid) {
            let k = choose|k: int| 0 <= k < ss1.len() && #[trigger] ss1[k].id == sid;
            if k < j {
                assert(ss1[k] == v.sessions[k]);
            } else {
                assert(ss1[k] == v.sessions[k + 1]);
            }
        }
    }
    let v1 = StoreView { sessions: ss1, ..v };
    let pend = crate::question_store::pending_of_session(v.questions, sid);
    let p = |q: QuestionView| q.session_id == sid && q.status == QuestionStatus::Pending;
    let f = |q: QuestionView| q.id;
    assert(pend == v.questions.filter(p).map_values(f));
    if newly_settled(v.questions, pend).len() > 0 {
        let q2 = settle_listed(v.questions, pend, QuestionStatus::Dismissed, Some(session_removed_reason()));
        let keep = |s: SessionView| !consumed(s, q2);
        assert(!has_session(ss1.filter(keep), sid)) by {
            if has_session(ss1.filter(keep), sid) {
                let k = choose|k: int| 0 <= k < ss1.filter(keep).len() && #[trigger] ss1.filter(keep)[k].id == sid;
                assert(ss1.filter(keep).contains(ss1.filter(keep)[k]));
                ss1.lemma_filter_contains_rev(keep, ss1.filter(keep)[k]);
                let m = choose|m: int| 0 <= m < ss1.len() && ss1[m] == ss1.filter(keep)[k];
                assert(ss1[m].id == sid);
            }
        }
    }
    assert forall|k: int|
        0 <= k < v.questions.len() && !(v.questions[k].session_id == sid && v.questions[k].status
            == QuestionStatus::Pending) implies #[trigger] post.questions[k] == v.questions[k] by {
        let q = v.questions[k];
        if q.status == QuestionStatus::Pending && pend.contains(q.id) {
            let m = choose|m: int| 0 <= m < pend.len() && pend[m] == q.id;
            let w = v.questions.filter(p)[m];
            assert(p(w));
            assert(v.questions.filter(p).contains(w));
            v.questions.lemma_filter_contains_rev(p, w);
            let i = choose|i: int| 0 <= i < v.questions.len() && v.questions[i] == w;
            assert(v.questions[i].id == v.questions[k].id);
        }
    }
    assert(!has_session(post.sessions, sid));
    assert(post.questions.len() == v.questions.len());
}

/// A question added to a session joins the store last, built from the
/// submitted question (pending, with the next id, no answer and no reason),
/// and the session (created when it did not exist) now lists it after the
/// questions it listed before.
pub proof fn lemma_added_question_joins_its_session(
    v: StoreView,
    sid: Seq<char>,
    dn: Option<Seq<char>>,
    item: AskItemView,
    now: u64,
)
    requires
        v.well_formed(),
    ensures
        ({
            let (post, q) = add_to_session_post(v, sid, dn, item, now);
            let before = if has_session(v.sessions, sid) {
                v.sessions[session_index(v.sessions, sid)].question_ids
            } else {
                Seq::empty()
            };
            &&& q == crate::question_store::new_question(item, decimal(v.id_counter + 1), sid, now)
            &&& !has_question(v.questions, q.id)
            &&& post.questions == v.questions.push(q)
            &&& post.id_counter == v.id_counter + 1
            &&& has_session(post.sessions, sid)
            &&& post.sessions[session_index(post.sessions, sid)].question_ids == before.push(q.id)
        }),
{
    lemma_new_question_id_fresh(v, sid, dn, item, now);
    let v1 = ensure_session_post(v, sid, dn, now).0;
    let (post, q) = add_to_session_post(v, sid, dn, item, now);
    let j = session_index(v1.sessions, sid);
    if has_session(v.sessions, sid) {
        let js = session_index(v.sessions, sid);
        assert(v.sessions[js].id == sid);
        assert(v1.sessions[js].id == sid);
        assert(v1.sessions[js].question_ids == v.sessions[js].question_ids);
        assert(v1.sessions[j].id == sid);
        assert(j == js);
    } else {
        let last = v1.sessions.len() - 1;
        assert(v1.sessions[last].id == sid);
        assert(v1.sessions[j].id == sid);
        if j != last {
            assert(v.sessions[j].id == sid);
        }
        assert(j == last);
    }
    assert(post.sessions[j].id == sid);
    let jp = session_index(post.sessions, sid);
    assert(post.sessions[jp].id == sid);
    if jp != j {
        assert(post.sessions[jp] == v1.sessions[jp]);
        if has_session(v.sessions, sid) {
            assert(v1.sessions[jp].id == v.sessions[jp].id);
            assert(v.sessions[jp].id == sid);
            assert(v.sessions[j].id == sid);
        } else {
            assert(v1.sessions[jp] == v.sessions[jp]);
        }
    }
}

/// The clean-up removes exactly the consumed sessions, keeps the others in
/// their order, leaves the questions as they are, tells the user interface
/// of each removal (questions kept), and leaves no consumed session.
pub proof fn lemma_cleanup_removes_exactly_consumed(v: StoreView, sid: Seq<char>)
    requires
        v.well_formed(),
    ensures
        cleaned(v).questions == v.questions,
        cleaned(v).sessions == v.sessions.filter(|s: SessionView| !consumed(s, v.questions)),
        cleaned(v).outbox == v.outbox + v.sessions.filter(|s: SessionView| consumed(s, v.questions)).map_values(
            |s: SessionView| crate::types::UiEventView::SessionRemoved(s.id, true),
        ),
        has_session(v.sessions, sid) ==> (has_session(cleaned(v).sessions, sid) <==> !consumed(
            v.sessions[session_index(v.sessions, sid)],
            v.questions,
        )),
        no_consumed_session(cleaned(v)),
{
    broadcast use vstd::seq_lib::group_filter_ensures;

    lemma_cleaned_leaves_no_consumed_session(v);
    let keep = |s: SessionView| !consumed(s, v.questions);
    let out = v.sessions.filter(keep);
    if has_session(v.sessions, sid) {
        let j = session_index(v.sessions, sid);
        assert(v.sessions[j].id == sid);
        if keep(v.sessions[j]) {
            v.sessions.lemma_filter_contains(keep, j);
            let k = choose|k: int| 0 <= k < out.len() && out[k] == v.sessions[j];
            assert(out[k].id == sid);
        }
        if has_session(out, sid) {
            let k = choose|k: int| 0 <= k < out.len() && #[trigger] out[k].id == sid;
            assert(keep(out[k]));
            assert(out.contains(out[k]));
            v.sessions.lemma_filter_contains_rev(keep, out[k]);
            let m = choose|m: int| 0 <= m < v.sessions.len() && v.sessions[m] == out[k];
            assert(v.sessions[m].id == sid);
            assert(m == j);
        }
    }
}

/// Adding several questions appends them to the store in order, each built
/// from its submitted question with the next id.
proof fn lemma_ask_many_appends(
    v: StoreView,
    sid: Seq<char>,
    dn: Option<Seq<char>>,
    items: Seq<AskItemView>,
    now: u64,
)
    ensures
        ({
            let (post, qs) = crate::ipc::handlers::ask_many(v, sid, dn, items, now);
            &&& qs.len() == items.len()
            &&& post.id_counter == v.id_counter + items.len()
            &&& post.questions == v.questions + qs
            &&& forall|i: int|
                0 <= i < qs.len() ==> #[trigger] qs[i] == crate::question_store::new_question(
                    items[i],
                    decimal((v.id_counter + i + 1) as nat),
                    sid,
                    now,
                )
        }),
    decreases items.len(),
{
    if items.len() > 0 {
        let dl = items.drop_last();
        lemma_ask_many_appends(v, sid, dn, dl, now);
        let prev = crate::ipc::handlers::ask_many(v, sid, dn, dl, now);
        let name = if items.len() == 1 {
            dn
        } else {
            None
        };
        let v1 = ensure_session_post(prev.0, sid, name, now).0;
        assert(v1.questions == prev.0.questions);
        assert(v1.id_counter == prev.0.id_counter);
        let (post, qs) = crate::ipc::handlers::ask_many(v, sid, dn, items, now);
        assert(qs == prev.1.push(add_to_session_post(prev.0, sid, name, items.last(), now).1));
        assert(post.questions =~= v.questions + qs);
        assert forall|i: int| 0 <= i < qs.len() implies #[trigger] qs[i] == crate::question_store::new_question(
            items[i],
            decimal((v.id_counter + i + 1) as nat),
            sid,
            now,
        ) by {
            if i < dl.len() {
                assert(qs[i] == prev.1[i]);
                assert(dl[i] == items[i]);
            }
        }
    }
}

/// The answer to an ask names the new questions, in order, with consecutive
/// ids after the counter; the store holds them last, each pending and built
/// from its submitted question; and the count is that of the session's
/// pending questions afterwards.
pub proof fn lemma_ask_answers_with_new_ids(
    v: StoreView,
    sid: Seq<char>,
    dn: Option<Seq<char>>,
    items: Seq<AskItemView>,
    now: u64,
)
    ensures
        ({
            let (post, resp) = crate::ipc::handlers::ask_post(v, sid, dn, items, now);
            &&& post.questions.len() == v.questions.len() + items.len()
            &&& post.id_counter == v.id_counter + items.len()
            &&& resp matches crate::ipc::types::ResponseView::AskOk(ids, pending) && {
                &&& ids.len() == items.len()
                &&& pending == crate::question_store::pending_of_session(post.questions, sid).len()
                &&& forall|i: int|
                    0 <= i < items.len() ==> {
                        &&& #[trigger] ids[i] == decimal((v.id_counter + i + 1) as nat)
                        &&& post.questions[v.questions.len() + i] == crate::question_store::new_question(
                            items[i],
                            ids[i],
                            sid,
                            now,
                        )
                        &&& post.questions[v.questions.len() + i].status == QuestionStatus::Pending
                    }
            }
        }),
{
    lemma_ask_many_appends(v, sid, dn, items, now);
    let (p1, qs) = crate::ipc::handlers::ask_many(v, sid, dn, items, now);
    let (post, resp) = crate::ipc::handlers::ask_post(v, sid, dn, items, now);
    assert(post.questions == p1.questions);
    let ids = crate::ipc::handlers::ids_of(qs);
    assert forall|i: int| 0 <= i < items.len() implies {
        &&& #[trigger] ids[i] == decimal((v.id_counter + i + 1) as nat)
        &&& post.questions[v.questions.len() + i] == crate::question_store::new_question(
            items[i],
            ids[i],
            sid,
            now,
        )
        &&& post.questions[v.questions.len() + i].status == QuestionStatus::Pending
    } by {
        assert(qs[i] == crate::question_store::new_question(items[i], decimal((v.id_counter + i + 1) as nat), sid, now));
        assert(post.questions[v.questions.len() + i] == qs[i]);
    }
}

/// When session `sid` is listed and lists some question, it lists every
/// pending question that belongs to it.
pub open spec fn lists_all_its_pending(v: StoreView, sid: Seq<char>) -> bool {
    has_session(v.sessions, sid) && v.sessions[session_index(v.sessions, sid)].question_ids.len() > 0
        ==> forall|k: int|
        0 <= k < v.questions.len() && v.questions[k].session_id == sid && v.questions[k].status
            == QuestionStatus::Pending ==> v.sessions[session_index(v.sessions, sid)].question_ids.contains(
            #[trigger] v.questions[k].id,
        )
}

/// A dismissal that names no ids settles exactly the pending questions of
/// the session, and none of them is pending afterwards; it holds whenever
/// the session lists all its pending questions ([`lists_all_its_pending`]),
/// and always when the session is not listed or lists nothing. (It can fail
/// otherwise: after a session with a pending question is removed without its
/// questions and a question is asked in it again, the new session lists only
/// the new question.)
pub proof fn lemma_dismiss_without_ids_covers_the_session(v: StoreView, sid: Seq<char>, reason: Option<Seq<char>>)
    requires
        v.well_formed(),
        lists_all_its_pending(v, sid),
    ensures
        ({
            let targets = crate::question_store::resolution(v, sid, Seq::empty());
            &&& forall|x: Seq<char>|
                #[trigger] newly_settled(v.questions, targets).contains(x)
                    <==> crate::question_store::pending_of_session(v.questions, sid).contains(x)
            &&& forall|k: int|
                0 <= k < v.questions.len() && v.questions[k].session_id == sid ==> #[trigger] dismiss_post(
                    v,
                    targets,
                    reason,
                ).questions[k].status != QuestionStatus::Pending
        }),
{
    broadcast use vstd::seq_lib::group_filter_ensures;

    let qs = v.questions;
    let targets = crate::question_store::resolution(v, sid, Seq::empty());
    let pend = crate::question_store::pending_of_session(qs, sid);
    let p = |q: QuestionView| q.session_id == sid && q.status == QuestionStatus::Pending;
    let f = |q: QuestionView| q.id;
    let ps = |q: QuestionView| q.session_id == sid;
    let own = crate::question_store::questions_of_session(qs, sid);
    assert(pend == qs.filter(p).map_values(f));
    assert(own == qs.filter(ps).map_values(f));
    let listed = crate::question_store::session_question_ids(v, sid).len() > 0;
    // A pending question of the session is a target.
    assert forall|k: int|
        0 <= k < qs.len() && qs[k].session_id == sid && qs[k].status == QuestionStatus::Pending implies targets.contains(
        #[trigger] qs[k].id,
    ) by {
        if !listed {
            qs.lemma_filter_contains(ps, k);
            let m = choose|m: int| 0 <= m < qs.filter(ps).len() && qs.filter(ps)[m] == qs[k];
            assert(own[m] == qs[k].id);
            crate::text::lemma_sorted_of_contains(own, qs[k].id);
        } else if !has_session(v.sessions, sid) {
        }
    }
    // A pending target belongs to the session.
    assert forall|x: Seq<char>| targets.contains(x) && is_pending_id(qs, x) implies qs[question_index(
        qs,
        x,
    )].session_id == sid by {
        if listed {
            let si = session_index(v.sessions, sid);
            let l = v.sessions[si].question_ids;
            assert(v.sessions[si].id == sid);
            assert(crate::state::session_lists_own(qs, v.sessions[si]));
            let j = choose|j: int| 0 <= j < l.len() && l[j] == x;
            assert(has_question(qs, l[j]));
        } else {
            crate::text::lemma_sorted_of_contains(own, x);
            let m = choose|m: int| 0 <= m < own.len() && own[m] == x;
            let w = qs.filter(ps)[m];
            assert(ps(w));
            assert(qs.filter(ps).contains(w));
            qs.lemma_filter_contains_rev(ps, w);
            let i = choose|i: int| 0 <= i < qs.len() && qs[i] == w;
            let qi = question_index(qs, x);
            assert(qs[qi].id == x);
            assert(qs[i].id == x);
        }
    }
    assert forall|x: Seq<char>| #[trigger] newly_settled(qs, targets).contains(x) <==> pend.contains(x) by {
        crate::question_store::lemma_newly_settled_contains(qs, targets, x);
        if pend.contains(x) {
            let m = choose|m: int| 0 <= m < pend.len() && pend[m] == x;
            let w = qs.filter(p)[m];
            assert(p(w));
            assert(qs.filter(p).contains(w));
            qs.lemma_filter_contains_rev(p, w);
            let k = choose|k: int| 0 <= k < qs.len() && qs[k] == w;
            assert(qs[k].id == x);
            assert(targets.contains(qs[k].id));
            let qi = question_index(qs, x);
            assert(qs[qi].id == x);
            assert(qi == k);
        }
        if targets.contains(x) && is_pending_id(qs, x) {
            let k = question_index(qs, x);
            assert(qs[k].id == x);
            qs.lemma_filter_contains(p, k);
            let m = choose|m: int| 0 <= m < qs.filter(p).len() && qs.filter(p)[m] == qs[k];
            assert(pend[m] == x);
        }
    }
    assert forall|k: int| 0 <= k < qs.len() && qs[k].session_id == sid implies #[trigger] dismiss_post(
        v,
        targets,
        reason,
    ).questions[k].status != QuestionStatus::Pending by {
        if qs[k].status == QuestionStatus::Pending {
            assert(targets.contains(qs[k].id));
            let qi = question_index(qs, qs[k].id);
            assert(qs[qi].id == qs[k].id);
            assert(is_pending_id(qs, qs[k].id));
            crate::question_store::lemma_newly_settled_contains(qs, targets, qs[k].id);
            assert(newly_settled(qs, targets).len() > 0);
        }
    }
}

/// A wait for all questions ends as soon as none of them is pending, however
/// many were answered or cancelled; while one is pending and no instant
/// question was answered, it goes on. A wait for any ends as soon as one was
/// answered or cancelled, and goes on while none was (and no instant question
/// was answered).
pub proof fn lemma_wait_ends_when_nothing_is_pending(r: ResultView, qs: Seq<QuestionView>)
    ensures
        r.pending.len() == 0 ==> resolved(r, true, qs),
        r.answered.len() > 0 || r.denied.len() > 0 ==> resolved(r, false, qs),
        r.pending.len() > 0 && (forall|i: int|
            0 <= i < r.answered.len() ==> !crate::question_store::is_instant_id(qs, #[trigger] r.answered[i].id))
            ==> !resolved(r, true, qs),
        r.answered.len() == 0 && r.denied.len() == 0 ==> !resolved(r, false, qs),
        r.pending.len() == 0 ==> crate::question_store::closable_resolved(r, true, qs),
{
}

/// The questions a request is about: the ids it names when it names any;
/// otherwise every id the session lists, in its order, whatever the state of
/// those questions; otherwise (no session, or one that lists nothing) the ids
/// of exactly the questions that belong to the session.
pub proof fn lemma_resolution_takes_named_then_listed(v: StoreView, sid: Seq<char>, ids: Seq<Seq<char>>)
    ensures
        ids.len() > 0 ==> crate::question_store::resolution(v, sid, ids) == ids,
        ids.len() == 0 && has_session(v.sessions, sid) && v.sessions[session_index(v.sessions, sid)].question_ids.len()
            > 0 ==> crate::question_store::resolution(v, sid, ids) == v.sessions[session_index(
            v.sessions,
            sid,
        )].question_ids,
        ids.len() == 0 && !(has_session(v.sessions, sid) && v.sessions[session_index(
            v.sessions,
            sid,
        )].question_ids.len() > 0) ==> forall|x: Seq<char>|
            #[trigger] crate::question_store::resolution(v, sid, ids).contains(x) <==> exists|k: int|
                0 <= k < v.questions.len() && v.questions[k].session_id == sid && v.questions[k].id == x,
{
    broadcast use vstd::seq_lib::group_filter_ensures;

    if ids.len() == 0 && !(has_session(v.sessions, sid) && v.sessions[session_index(v.sessions, sid)].question_ids.len()
        > 0) {
        let qs = v.questions;
        let ps = |q: QuestionView| q.session_id == sid;
        let f = |q: QuestionView| q.id;
        let own = crate::question_store::questions_of_session(qs, sid);
        assert(own == qs.filter(ps).map_values(f));
        assert forall|x: Seq<char>| #[trigger] crate::question_store::resolution(v, sid, ids).contains(x) <==> exists|k: int|
            0 <= k < qs.len() && qs[k].session_id == sid && qs[k].id == x by {
            crate::text::lemma_sorted_of_contains(own, x);
            if own.contains(x) {
                let m = choose|m: int| 0 <= m < own.len() && own[m] == x;
                let w = qs.filter(ps)[m];
                assert(ps(w));
                assert(qs.filter(ps).contains(w));
                qs.lemma_filter_contains_rev(ps, w);
                let k = choose|k: int| 0 <= k < qs.len() && qs[k] == w;
                assert(qs[k].session_id == sid && qs[k].id == x);
            }
            if exists|k: int| 0 <= k < qs.len() && qs[k].session_id == sid && qs[k].id == x {
                let k = choose|k: int| 0 <= k < qs.len() && qs[k].session_id == sid && qs[k].id == x;
                qs.lemma_filter_contains(ps, k);
                let m = choose|m: int| 0 <= m < qs.filter(ps).len() && qs.filter(ps)[m] == qs[k];
                assert(own[m] == x);
            }
        }
    }
}

/// A dismiss request that names ids settles only those ids: it reports
/// exactly the named ids that were pending, each such question is dismissed
/// with the request's reason, and every question whose id it does not name
/// is unchanged.
pub proof fn lemma_dismiss_request_settles_only_named(v: StoreView, req: crate::ipc::types::IpcRequest, now: u64)
    requires
        v.well_formed(),
        req matches crate::ipc::types::IpcRequest::Dismiss { ids, .. } && ids@.len() > 0,
    ensures
        match req {
            crate::ipc::types::IpcRequest::Dismiss { session_id, ids, reason } => {
                let (post, d) = crate::ipc::handlers::dispatch_post(v, req, now);
                let named = crate::types::strs_view(ids@);
                &&& d matches crate::ipc::handlers::DispatchedView::Reply(
                    crate::ipc::types::ResponseView::DismissOk(dismissed),
                ) && forall|x: Seq<char>|
                    #[trigger] dismissed.contains(x) <==> named.contains(x) && is_pending_id(v.questions, x)
                &&& post.questions.len() == v.questions.len()
                &&& forall|k: int|
                    0 <= k < v.questions.len() && !named.contains(v.questions[k].id) ==> #[trigger] post.questions[k]
                        == v.questions[k]
                &&& forall|k: int|
                    0 <= k < v.questions.len() && named.contains(v.questions[k].id) && v.questions[k].status
                        == QuestionStatus::Pending ==> #[trigger] post.questions[k] == settled(
                        v.questions[k],
                        QuestionStatus::Dismissed,
                        crate::types::opt_str_view(reason),
                    )
            },
            _ => true,
        },
{
    match req {
        crate::ipc::types::IpcRequest::Dismiss { session_id, ids, reason } => {
            let named = crate::types::strs_view(ids@);
            assert(named.len() > 0);
            assert(crate::question_store::resolution(v, session_id@, named) == named);
            let qs = v.questions;
            let d = newly_settled(qs, named);
            assert forall|x: Seq<char>| #[trigger] d.contains(x) <==> named.contains(x) && is_pending_id(qs, x) by {
                crate::question_store::lemma_newly_settled_contains(qs, named, x);
            }
            assert forall|k: int|
                0 <= k < qs.len() && named.contains(qs[k].id) && qs[k].status == QuestionStatus::Pending implies d.len() > 0 by {
                let i = question_index(qs, qs[k].id);
                assert(qs[i].id == qs[k].id);
                assert(is_pending_id(qs, qs[k].id));
                assert(d.contains(qs[k].id));
            }
        },
        _ => {},
    }
}

/// Flattening keeps every element of every part.
proof fn lemma_flatten_contains<A>(ss: Seq<Seq<A>>, i: int, j: int)
    requires
        0 <= i < ss.len(),
        0 <= j < ss[i].len(),
    ensures
        ss.flatten().contains(ss[i][j]),
    decreases ss.len(),
{
    let rest = ss.drop_first().flatten();
    if i == 0 {
        assert((ss.first() + rest)[j] == ss[0][j]);
    } else {
        assert(ss.drop_first()[i - 1] == ss[i]);
        lemma_flatten_contains(ss.drop_first(), i - 1, j);
        let k = choose|k: int| 0 <= k < rest.len() && rest[k] == ss[i][j];
        assert((ss.first() + rest)[ss.first().len() + k] == ss[i][j]);
    }
}

/// The window's state holds every question a session lists that the store
/// holds, whatever its status.
pub proof fn lemma_state_holds_every_listed_question(v: StoreView, i: int, j: int)
    requires
        0 <= i < v.sessions.len(),
        0 <= j < v.sessions[i].question_ids.len(),
        has_question(v.questions, v.sessions[i].question_ids[j]),
    ensures
        crate::ui::state_questions(v.sessions, v.questions).contains(
            v.questions[question_index(v.questions, v.sessions[i].question_ids[j])],
        ),
{
    broadcast use vstd::seq_lib::group_filter_ensures;

    let qs = v.questions;
    let s = v.sessions[i];
    let id = s.question_ids[j];
    let p = |x: Seq<char>| has_question(qs, x);
    let f = |x: Seq<char>| qs[question_index(qs, x)];
    let g = |t: SessionView| crate::ui::session_questions(t, qs);
    let sq = crate::ui::session_questions(s, qs);
    assert(sq == s.question_ids.filter(p).map_values(f));
    s.question_ids.lemma_filter_contains(p, j);
    let m = choose|m: int| 0 <= m < s.question_ids.filter(p).len() && s.question_ids.filter(p)[m] == id;
    assert(sq[m] == qs[question_index(qs, id)]);
    let parts = v.sessions.map_values(g);
    assert(parts[i] == sq);
    lemma_flatten_contains(parts, i, m);
    assert(crate::ui::state_questions(v.sessions, qs) == parts.flatten());
}

/// A session given a name takes it: an existing one is renamed to it (or
/// keeps it, when it already had it), a new one is created with it; either
/// way the name is the one returned. Without a name, an existing session
/// keeps its own.
pub proof fn lemma_session_takes_the_given_name(v: StoreView, sid: Seq<char>, dn: Option<Seq<char>>, t: u64)
    requires
        v.well_formed(),
    ensures
        ({
            let (post, name) = ensure_session_post(v, sid, dn, t);
            &&& has_session(post.sessions, sid)
            &&& post.sessions[session_index(post.sessions, sid)].display_name == name
            &&& dn matches Some(n) ==> name == n
            &&& dn is None && has_session(v.sessions, sid) ==> name == v.sessions[session_index(
                v.sessions,
                sid,
            )].display_name
        }),
{
    let (post, name) = ensure_session_post(v, sid, dn, t);
    if has_session(v.sessions, sid) {
        let j = session_index(v.sessions, sid);
        assert(v.sessions[j].id == sid);
        assert(post.sessions[j].id == sid);
        let jp = session_index(post.sessions, sid);
        assert(post.sessions[jp].id == sid);
        if jp != j {
            assert(post.sessions[jp] == v.sessions[jp]);
        }
    } else {
        let last = post.sessions.len() - 1;
        assert(post.sessions[last].id == sid);
        let jp = session_index(post.sessions, sid);
        assert(post.sessions[jp].id == sid);
        if jp != last {
            assert(post.sessions[jp] == v.sessions[jp]);
        }
    }
}

} // verus!
