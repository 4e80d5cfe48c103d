//! The store's state: sessions, questions, the question counter, the
//! shutdown flag and what the store owes the outside world (events for the
//! user interface, a wake-up for blocked waiters).
use crate::text::{decimal, decimal_string, lemma_decimal_injective, str_equal};
use crate::types::{
    opt_answer_view, opt_str_view, strs_view, AnswerView, QuestionAnswer, IpcToUiEvent, Question, QuestionStatus, QuestionView, Session, SessionView, UiEventView,
};
use vstd::prelude::*;

verus! {

// ------------------------------------------------------------
// Clock
// ------------------------------------------------------------

#[verifier::external_type_specification]
#[verifier::external_body]
pub struct ExSystemTime(std::time::SystemTime);

/// Reads the system clock.
///
/// Calls `SystemTime::now`; the result depends on the moment of the call, so
/// nothing is stated of it.
#[verifier::external_body]
fn system_time_now() -> std::time::SystemTime {
    std::time::SystemTime::now()
}

/// The time elapsed between the UNIX epoch and `t`.
///
/// Calls `SystemTime::duration_since(UNIX_EPOCH)`, which fails when `t` is
/// earlier than the epoch; the failure becomes `None`. Nothing is stated of
/// the duration.
#[verifier::external_body]
fn elapsed_since_epoch(t: std::time::SystemTime) -> Option<std::time::Duration> {
    match t.duration_since(std::time::UNIX_EPOCH) {
        Ok(d) => Some(d),
        Err(_) => None,
    }
}

/// The whole milliseconds in `d`.
///
/// Calls `Duration::as_millis`; `Duration` is opaque here, so nothing is
/// stated of the count.
#[verifier::external_body]
fn whole_millis(d: std::time::Duration) -> u128 {
    d.as_millis()
}

/// Milliseconds since the UNIX epoch as the store records them: a clock
/// before the epoch counts as zero, and the count is kept to its low 64 bits.
pub fn millis_from_elapsed(elapsed_millis: Option<u128>) -> (ms: u64)
    ensures
        ms == millis_from_elapsed_spec(elapsed_millis),
{
    match elapsed_millis {
        Some(m) => (m % 0x1_0000_0000_0000_0000u128) as u64,
        None => 0,
    }
}

/// The current time in milliseconds since the UNIX epoch. The value depends
/// on the clock; how the clock's reading becomes the value is
/// [`millis_from_elapsed`].
pub fn now_millis() -> u64 {
    let elapsed = match elapsed_since_epoch(system_time_now()) {
        Some(d) => Some(whole_millis(d)),
        None => None,
    };
    millis_from_elapsed(elapsed)
}

/// The value of [`millis_from_elapsed`].
pub open spec fn millis_from_elapsed_spec(elapsed_millis: Option<u128>) -> u64 {
    match elapsed_millis {
        Some(m) => (m % 0x1_0000_0000_0000_0000) as u64,
        None => 0,
    }
}

// ------------------------------------------------------------
// State and its model
// ------------------------------------------------------------

/// The question store.
pub struct AppState {
    /// Sessions in the order they were created.
    sessions: Vec<Session>,
    /// All questions of all sessions, in the order they were asked.
    questions: Vec<Question>,
    /// The number of question ids handed out so far.
    id_counter: u32,
    /// Set once the application is about to exit.
    shutting_down: bool,
    /// Events for the user interface, oldest first, not yet handed out.
    outbox: Vec<IpcToUiEvent>,
    /// Whether blocked waiters must be woken because an answer state changed.
    wake_pending: bool,
    /// Instant answers already delivered to a client.
    delivered_instant_ids: Vec<String>,
}

/// The model of the store.
pub struct StoreView {
    pub sessions: Seq<SessionView>,
    pub questions: Seq<QuestionView>,
    pub id_counter: nat,
    pub shutting_down: bool,
    pub outbox: Seq<UiEventView>,
    pub wake_pending: bool,
    pub delivered: Seq<Seq<char>>,
}

impl View for AppState {
    type V = StoreView;

    closed spec fn view(&self) -> StoreView {
        StoreView {
            sessions: self.sessions@.map_values(|s: Session| s@),
            questions: self.questions@.map_values(|q: Question| q@),
            id_counter: self.id_counter as nat,
            shutting_down: self.shutting_down,
            outbox: self.outbox@.map_values(|e: IpcToUiEvent| e@),
            wake_pending: self.wake_pending,
            delivered: strs_view(self.delivered_instant_ids@),
        }
    }
}

/// Some question of `qs` has the id `id`.
pub open spec fn has_question(qs: Seq<QuestionView>, id: Seq<char>) -> bool {
    exists|k: int| 0 <= k < qs.len() && #[trigger] qs[k].id == id
}

/// The position of the question with id `id` (meaningful when there is one).
pub open spec fn question_index(qs: Seq<QuestionView>, id: Seq<char>) -> int {
    choose|k: int| 0 <= k < qs.len() && #[trigger] qs[k].id == id
}

/// The question with id `id`, if any.
pub open spec fn lookup(qs: Seq<QuestionView>, id: Seq<char>) -> Option<QuestionView> {
    if has_question(qs, id) {
        Some(qs[question_index(qs, id)])
    } else {
        None
    }
}

/// The question with id `id` exists and is pending.
pub open spec fn is_pending_id(qs: Seq<QuestionView>, id: Seq<char>) -> bool {
    has_question(qs, id) && qs[question_index(qs, id)].status == QuestionStatus::Pending
}

/// Some session of `ss` has the id `id`.
pub open spec fn has_session(ss: Seq<SessionView>, id: Seq<char>) -> bool {
    exists|k: int| 0 <= k < ss.len() && #[trigger] ss[k].id == id
}

/// The position of the session with id `id` (meaningful when there is one).
pub open spec fn session_index(ss: Seq<SessionView>, id: Seq<char>) -> int {
    choose|k: int| 0 <= k < ss.len() && #[trigger] ss[k].id == id
}

/// No two questions share an id.
pub open spec fn unique_question_ids(qs: Seq<QuestionView>) -> bool {
    forall|i: int, j: int|
        0 <= i < qs.len() && 0 <= j < qs.len() && #[trigger] qs[i].id == #[trigger] qs[j].id ==> i == j
}

/// No two sessions share an id.
pub open spec fn unique_session_ids(ss: Seq<SessionView>) -> bool {
    forall|i: int, j: int|
        0 <= i < ss.len() && 0 <= j < ss.len() && #[trigger] ss[i].id == #[trigger] ss[j].id ==> i == j
}

/// Every question id is the decimal form of a number the counter has
/// already handed out.
pub open spec fn ids_issued(qs: Seq<QuestionView>, counter: nat) -> bool {
    forall|i: int| 0 <= i < qs.len() ==> #[trigger] issued(qs[i].id, counter)
}

/// `id` is the decimal form of a number between one and `counter`.
pub open spec fn issued(id: Seq<char>, counter: nat) -> bool {
    exists|k: nat| 1 <= k <= counter && #[trigger] decimal(k) == id
}

/// Every id session `s` lists names a question of `qs` that belongs to `s`.
pub open spec fn session_lists_own(qs: Seq<QuestionView>, s: SessionView) -> bool {
    forall|j: int|
        0 <= j < s.question_ids.len() ==> has_question(qs, #[trigger] s.question_ids[j]) && qs[question_index(
            qs,
            s.question_ids[j],
        )].session_id == s.id
}

/// Every session lists only questions that belong to it.
pub open spec fn sessions_list_own(qs: Seq<QuestionView>, ss: Seq<SessionView>) -> bool {
    forall|i: int| 0 <= i < ss.len() ==> session_lists_own(qs, #[trigger] ss[i])
}

/// A session that lists only its own questions still does so once the
/// questions are changed without touching any id or session, or new ones are
/// appended, as long as ids stay unique.
pub proof fn lemma_lists_own_kept(qs: Seq<QuestionView>, qs2: Seq<QuestionView>, s: SessionView)
    requires
        session_lists_own(qs, s),
        qs.len() <= qs2.len(),
        forall|k: int| 0 <= k < qs.len() ==> #[trigger] qs2[k].id == qs[k].id && qs2[k].session_id == qs[k].session_id,
        unique_question_ids(qs2),
    ensures
        session_lists_own(qs2, s),
{
    assert forall|j: int| 0 <= j < s.question_ids.len() implies has_question(qs2, #[trigger] s.question_ids[j])
        && qs2[question_index(qs2, s.question_ids[j])].session_id == s.id by {
        let id = s.question_ids[j];
        let k = question_index(qs, id);
        assert(qs[k].id == id);
        assert(qs2[k].id == id);
        let k2 = question_index(qs2, id);
        assert(qs2[k2].id == id);
        assert(k2 == k);
    }
}

/// A session that lists only its own questions still does so after it
/// lists one more question that belongs to it.
pub proof fn lemma_lists_own_push(qs: Seq<QuestionView>, s: SessionView, k: int)
    requires
        session_lists_own(qs, s),
        unique_question_ids(qs),
        0 <= k < qs.len(),
        qs[k].session_id == s.id,
    ensures
        session_lists_own(qs, SessionView { question_ids: s.question_ids.push(qs[k].id), ..s }),
{
    let s2 = SessionView { question_ids: s.question_ids.push(qs[k].id), ..s };
    assert forall|t: int| 0 <= t < s2.question_ids.len() implies has_question(qs, #[trigger] s2.question_ids[t])
        && qs[question_index(qs, s2.question_ids[t])].session_id == s2.id by {
        if t < s.question_ids.len() {
            assert(s2.question_ids[t] == s.question_ids[t]);
        } else {
            let i = question_index(qs, qs[k].id);
            assert(qs[i].id == qs[k].id);
        }
    }
}

impl StoreView {
    /// The invariant of the store.
    pub open spec fn well_formed(self) -> bool {
        &&& unique_question_ids(self.questions)
        &&& unique_session_ids(self.sessions)
        &&& ids_issued(self.questions, self.id_counter)
        &&& self.delivered.no_duplicates()
        &&& sessions_list_own(self.questions, self.sessions)
    }

    /// The store after its pending wake-up was taken.
    pub open spec fn with_wake(self, wake: bool) -> StoreView {
        StoreView { wake_pending: wake, ..self }
    }
}

impl AppState {
    /// The store satisfies its invariant.
    pub open spec fn wf(&self) -> bool {
        self@.well_formed()
    }

    /// An empty store.
    pub fn new() -> (s: Self)
        ensures
            s.wf(),
            s@.sessions.len() == 0,
            s@.questions.len() == 0,
            s@.id_counter == 0,
            !s@.shutting_down,
            s@.outbox.len() == 0,
            !s@.wake_pending,
            s@.delivered.len() == 0,
    {
        let s = AppState {
            sessions: Vec::new(),
            questions: Vec::new(),
            id_counter: 0,
            shutting_down: false,
            outbox: Vec::new(),
            wake_pending: false,
            delivered_instant_ids: Vec::new(),
        };
        assert(s@.questions =~= Seq::<QuestionView>::empty());
        assert(s@.sessions =~= Seq::<SessionView>::empty());
        assert(s@.delivered =~= Seq::<Seq<char>>::empty());
        s
    }

    /// How many more question ids the counter can hand out.
    pub fn ids_remaining(&self) -> (n: u32)
        ensures
            n == u32::MAX - self@.id_counter,
    {
        u32::MAX - self.id_counter
    }

    /// Hands out the next question id: the counter, advanced by one, in
    /// decimal.
    pub fn next_id(&mut self) -> (id: String)
        requires
            old(self).wf(),
            old(self)@.id_counter < u32::MAX,
        ensures
            final(self).wf(),
            final(self)@ == (StoreView { id_counter: old(self)@.id_counter + 1, ..old(self)@ }),
            id@ == decimal(old(self)@.id_counter + 1),
            !has_question(old(self)@.questions, id@),
    {
        proof {
            self.lemma_fresh_id();
        }
        self.id_counter = self.id_counter + 1;
        let id = decimal_string(self.id_counter);
        proof {
            assert(self@.questions == old(self)@.questions);
            assert forall|i: int| 0 <= i < self@.questions.len() implies #[trigger] issued(
                self@.questions[i].id,
                self@.id_counter as nat,
            ) by {
                assert(issued(old(self)@.questions[i].id, old(self)@.id_counter));
                let k = choose|k: nat| 1 <= k <= old(self)@.id_counter && #[trigger] decimal(k) == old(self)@.questions[i].id;
                assert(decimal(k) == self@.questions[i].id);
            }
        }
        id
    }

    /// The id the counter hands out next is not the id of any question.
    proof fn lemma_fresh_id(&self)
        requires
            self.wf(),
        ensures
            !has_question(self@.questions, decimal(self@.id_counter + 1)),
    {
        let n = self@.id_counter + 1;
        if has_question(self@.questions, decimal(n)) {
            let i = choose|i: int| 0 <= i < self@.questions.len() && #[trigger] self@.questions[i].id == decimal(n);
            assert(issued(self@.questions[i].id, self@.id_counter));
            let k = choose|k: nat| 1 <= k <= self@.id_counter && #[trigger] decimal(k) == self@.questions[i].id;
            lemma_decimal_injective(k, n);
        }
    }

    /// Records that blocked waiters must be woken.
    pub fn notify_state_changed(&mut self)
        requires
            old(self).wf(),
        ensures
            final(self).wf(),
            final(self)@ == old(self)@.with_wake(true),
    {
        self.wake_pending = true;
    }

    /// Takes the pending wake-up: returns whether waiters must be woken and
    /// clears the request.
    pub fn take_wake_request(&mut self) -> (wake: bool)
        requires
            old(self).wf(),
        ensures
            final(self).wf(),
            wake == old(self)@.wake_pending,
            final(self)@ == old(self)@.with_wake(false),
    {
        let w = self.wake_pending;
        self.wake_pending = false;
        w
    }

    /// Takes the events for the user interface, oldest first, and empties the
    /// outbox.
    pub fn take_events(&mut self) -> (events: Vec<IpcToUiEvent>)
        requires
            old(self).wf(),
        ensures
            final(self).wf(),
            events@.map_values(|e: IpcToUiEvent| e@) == old(self)@.outbox,
            final(self)@ == (StoreView { outbox: Seq::empty(), ..old(self)@ }),
    {
        let mut events: Vec<IpcToUiEvent> = Vec::new();
        std::mem::swap(&mut events, &mut self.outbox);
        assert(self@.outbox =~= Seq::<UiEventView>::empty());
        events
    }

    /// Whether the application is shutting down.
    pub fn shutting_down(&self) -> (b: bool)
        ensures
            b == self@.shutting_down,
    {
        self.shutting_down
    }
}


/// The sessions of `ss` marked `true` in `keep`, in their order.
pub open spec fn filter_mask<A>(ss: Seq<A>, keep: Seq<bool>) -> Seq<A>
    decreases ss.len(),
{
    if ss.len() == 0 || keep.len() != ss.len() {
        Seq::empty()
    } else {
        let rest = filter_mask(ss.drop_last(), keep.drop_last());
        if keep.last() {
            rest.push(ss.last())
        } else {
            rest
        }
    }
}

/// A question whose answer state changes: everything but the status, the
/// time of the answer, the answer and the reason stays.
pub open spec fn with_outcome(
    q: QuestionView,
    status: QuestionStatus,
    answered_at: Option<u64>,
    answer: Option<AnswerView>,
    reason: Option<Seq<char>>,
) -> QuestionView {
    QuestionView { status, answered_at, answer, dismiss_reason: reason, ..q }
}

impl AppState {
    /// The number of questions.
    pub fn question_count(&self) -> (n: usize)
        ensures
            n == self@.questions.len(),
    {
        self.questions.len()
    }

    /// The question at position `i`.
    pub fn question_at(&self, i: usize) -> (q: &Question)
        requires
            i < self@.questions.len(),
        ensures
            q@ == self@.questions[i as int],
    {
        &self.questions[i]
    }

    /// The number of sessions.
    pub fn session_count(&self) -> (n: usize)
        ensures
            n == self@.sessions.len(),
    {
        self.sessions.len()
    }

    /// The session at position `i`.
    pub fn session_at(&self, i: usize) -> (s: &Session)
        requires
            i < self@.sessions.len(),
        ensures
            s@ == self@.sessions[i as int],
    {
        &self.sessions[i]
    }

    /// The position of the question with id `id`.
    pub fn find_question(&self, id: &str) -> (r: Option<usize>)
        requires
            self.wf(),
        ensures
            match r {
                Some(i) => {
                    &&& i < self@.questions.len()
                    &&& self@.questions[i as int].id == id@
                    &&& i == question_index(self@.questions, id@)
                    &&& has_question(self@.questions, id@)
                },
                None => !has_question(self@.questions, id@),
            },
    {
        let n = self.questions.len();
        let mut i: usize = 0;
        while i < n
            invariant
                n == self@.questions.len(),
                0 <= i <= n,
                self.wf(),
                forall|k: int| 0 <= k < i ==> #[trigger] self@.questions[k].id != id@,
            decreases n - i,
        {
            if str_equal(self.questions[i].id.as_str(), id) {
                assert(self@.questions[i as int].id == id@);
                let ghost k = question_index(self@.questions, id@);
                assert(0 <= k < self@.questions.len() && self@.questions[k].id == id@);
                return Some(i);
            }
            i = i + 1;
        }
        None
    }

    /// The position of the session with id `id`.
    pub fn find_session(&self, id: &str) -> (r: Option<usize>)
        requires
            self.wf(),
        ensures
            match r {
                Some(i) => {
                    &&& i < self@.sessions.len()
                    &&& self@.sessions[i as int].id == id@
                    &&& i == session_index(self@.sessions, id@)
                    &&& has_session(self@.sessions, id@)
                },
                None => !has_session(self@.sessions, id@),
            },
    {
        let n = self.sessions.len();
        let mut i: usize = 0;
        while i < n
            invariant
                n == self@.sessions.len(),
                0 <= i <= n,
                self.wf(),
                forall|k: int| 0 <= k < i ==> #[trigger] self@.sessions[k].id != id@,
            decreases n - i,
        {
            if str_equal(self.sessions[i].id.as_str(), id) {
                assert(self@.sessions[i as int].id == id@);
                let ghost k = session_index(self@.sessions, id@);
                assert(0 <= k < self@.sessions.len() && self@.sessions[k].id == id@);
                return Some(i);
            }
            i = i + 1;
        }
        None
    }

    /// Changes the answer state of the question at position `i`.
    pub fn set_outcome(
        &mut self,
        i: usize,
        status: QuestionStatus,
        answered_at: Option<u64>,
        answer: Option<QuestionAnswer>,
        reason: Option<String>,
    )
        requires
            old(self).wf(),
            i < old(self)@.questions.len(),
        ensures
            final(self).wf(),
            final(self)@ == (StoreView {
                questions: old(self)@.questions.update(
                    i as int,
                    with_outcome(
                        old(self)@.questions[i as int],
                        status,
                        answered_at,
                        opt_answer_view(answer),
                        opt_str_view(reason),
                    ),
                ),
                ..old(self)@
            }),
    {
        let ghost target = with_outcome(
            old(self)@.questions[i as int],
            status,
            answered_at,
            opt_answer_view(answer),
            opt_str_view(reason),
        );
        self.questions[i].status = status;
        self.questions[i].answered_at = answered_at;
        self.questions[i].answer = answer;
        self.questions[i].dismiss_reason = reason;
        proof {
            assert(self@.questions =~= old(self)@.questions.update(i as int, target));
            assert forall|k: int| 0 <= k < self@.sessions.len() implies session_lists_own(
                self@.questions,
                #[trigger] self@.sessions[k],
            ) by {
                lemma_lists_own_kept(old(self)@.questions, self@.questions, self@.sessions[k]);
            }
            assert forall|k: int| 0 <= k < self@.questions.len() implies #[trigger] issued(
                self@.questions[k].id,
                self@.id_counter,
            ) by {
                assert(issued(old(self)@.questions[k].id, old(self)@.id_counter));
            }
        }
    }

    /// Settles the question at position `i`: sets its status and its reason,
    /// and keeps everything else.
    pub fn settle_question(&mut self, i: usize, status: QuestionStatus, reason: Option<String>)
        requires
            old(self).wf(),
            i < old(self)@.questions.len(),
        ensures
            final(self).wf(),
            final(self)@ == (StoreView {
                questions: old(self)@.questions.update(
                    i as int,
                    QuestionView {
                        status,
                        dismiss_reason: opt_str_view(reason),
                        ..old(self)@.questions[i as int]
                    },
                ),
                ..old(self)@
            }),
    {
        let ghost target = QuestionView {
            status,
            dismiss_reason: opt_str_view(reason),
            ..old(self)@.questions[i as int]
        };
        self.questions[i].status = status;
        self.questions[i].dismiss_reason = reason;
        proof {
            assert(self@.questions =~= old(self)@.questions.update(i as int, target));
            assert forall|k: int| 0 <= k < self@.sessions.len() implies session_lists_own(
                self@.questions,
                #[trigger] self@.sessions[k],
            ) by {
                lemma_lists_own_kept(old(self)@.questions, self@.questions, self@.sessions[k]);
            }
            assert forall|k: int| 0 <= k < self@.questions.len() implies #[trigger] issued(
                self@.questions[k].id,
                self@.id_counter,
            ) by {
                assert(issued(old(self)@.questions[k].id, old(self)@.id_counter));
            }
        }
    }

    /// Appends a question whose id is new and was handed out by the counter.
    pub fn push_question(&mut self, q: Question)
        requires
            old(self).wf(),
            !has_question(old(self)@.questions, q@.id),
            issued(q@.id, old(self)@.id_counter),
        ensures
            final(self).wf(),
            final(self)@ == (StoreView { questions: old(self)@.questions.push(q@), ..old(self)@ }),
    {
        self.questions.push(q);
        proof {
            assert(self@.questions =~= old(self)@.questions.push(q@));
            assert forall|k: int| 0 <= k < self@.questions.len() implies #[trigger] issued(
                self@.questions[k].id,
                self@.id_counter,
            ) by {
                if k < old(self)@.questions.len() {
                    assert(issued(old(self)@.questions[k].id, old(self)@.id_counter));
                }
            }
            assert forall|a: int, b: int|
                0 <= a < self@.questions.len() && 0 <= b < self@.questions.len()
                    && #[trigger] self@.questions[a].id == #[trigger] self@.questions[b].id implies a
                == b by {
                let n = old(self)@.questions.len() as int;
                if a == n && b < n {
                    assert(old(self)@.questions[b].id == q@.id);
                } else if b == n && a < n {
                    assert(old(self)@.questions[a].id == q@.id);
                }
            }
            assert forall|k: int| 0 <= k < self@.sessions.len() implies session_lists_own(
                self@.questions,
                #[trigger] self@.sessions[k],
            ) by {
                lemma_lists_own_kept(old(self)@.questions, self@.questions, self@.sessions[k]);
            }
        }
    }

    /// Appends a session whose id is new and which lists only its own
    /// questions.
    pub fn push_session(&mut self, s: Session)
        requires
            old(self).wf(),
            !has_session(old(self)@.sessions, s@.id),
            session_lists_own(old(self)@.questions, s@),
        ensures
            final(self).wf(),
            final(self)@ == (StoreView { sessions: old(self)@.sessions.push(s@), ..old(self)@ }),
    {
        self.sessions.push(s);
        proof {
            assert(self@.sessions =~= old(self)@.sessions.push(s@));
            assert forall|a: int, b: int|
                0 <= a < self@.sessions.len() && 0 <= b < self@.sessions.len()
                    && #[trigger] self@.sessions[a].id == #[trigger] self@.sessions[b].id implies a
                == b by {
                let n = old(self)@.sessions.len() as int;
                if a == n && b < n {
                    assert(old(self)@.sessions[b].id == s@.id);
                } else if b == n && a < n {
                    assert(old(self)@.sessions[a].id == s@.id);
                }
            }
            assert forall|k: int| 0 <= k < self@.sessions.len() implies session_lists_own(
                self@.questions,
                #[trigger] self@.sessions[k],
            ) by {
                if k < old(self)@.sessions.len() {
                    assert(self@.sessions[k] == old(self)@.sessions[k]);
                }
            }
        }
    }

    /// Replaces the session at position `i` by one with the same id that
    /// lists only its own questions.
    pub fn set_session(&mut self, i: usize, s: Session)
        requires
            old(self).wf(),
            i < old(self)@.sessions.len(),
            s@.id == old(self)@.sessions[i as int].id,
            session_lists_own(old(self)@.questions, s@),
        ensures
            final(self).wf(),
            final(self)@ == (StoreView {
                sessions: old(self)@.sessions.update(i as int, s@),
                ..old(self)@
            }),
    {
        self.sessions.set(i, s);
        assert(self@.sessions =~= old(self)@.sessions.update(i as int, s@));
        assert forall|k: int| 0 <= k < self@.sessions.len() implies session_lists_own(
            self@.questions,
            #[trigger] self@.sessions[k],
        ) by {
            if k != i {
                assert(self@.sessions[k] == old(self)@.sessions[k]);
            }
        }
    }

    /// Removes the session at position `i`.
    pub fn remove_session_at(&mut self, i: usize)
        requires
            old(self).wf(),
            i < old(self)@.sessions.len(),
        ensures
            final(self).wf(),
            final(self)@ == (StoreView {
                sessions: old(self)@.sessions.remove(i as int),
                ..old(self)@
            }),
    {
        self.sessions.remove(i);
        proof {
            assert(self@.sessions =~= old(self)@.sessions.remove(i as int));
            assert forall|a: int, b: int|
                0 <= a < self@.sessions.len() && 0 <= b < self@.sessions.len()
                    && #[trigger] self@.sessions[a].id == #[trigger] self@.sessions[b].id implies a
                == b by {
                let a0 = if a < i { a } else { a + 1 };
                let b0 = if b < i { b } else { b + 1 };
                assert(self@.sessions[a] == old(self)@.sessions[a0]);
                assert(self@.sessions[b] == old(self)@.sessions[b0]);
            }
            assert forall|k: int| 0 <= k < self@.sessions.len() implies session_lists_own(
                self@.questions,
                #[trigger] self@.sessions[k],
            ) by {
                let k0 = if k < i { k } else { k + 1 };
                assert(self@.sessions[k] == old(self)@.sessions[k0]);
            }
        }
    }

    /// Keeps the sessions marked `true` in `keep`, in their order.
    pub fn retain_sessions(&mut self, keep: &Vec<bool>)
        requires
            old(self).wf(),
            keep@.len() == old(self)@.sessions.len(),
        ensures
            final(self).wf(),
            final(self)@ == (StoreView {
                sessions: filter_mask(old(self)@.sessions, keep@),
                ..old(self)@
            }),
    {
        let ghost old_sessions = self@.sessions;
        let n = self.sessions.len();
        let mut kept: Vec<Session> = Vec::new();
        let mut i: usize = 0;
        while i < n
            invariant
                n == self@.sessions.len(),
                n == keep@.len(),
                0 <= i <= n,
                self@ == old(self)@,
                self.wf(),
                old_sessions == self@.sessions,
                kept@.map_values(|s: Session| s@) == filter_mask(
                    old_sessions.take(i as int),
                    keep@.take(i as int),
                ),
                forall|a: int|
                    0 <= a < kept@.len() ==> exists|b: int|
                        0 <= b < i && #[trigger] kept@[a]@ == old_sessions[b],
                forall|a: int, b: int|
                    0 <= a < kept@.len() && 0 <= b < kept@.len() && #[trigger] kept@[a]@.id
                        == #[trigger] kept@[b]@.id ==> a == b,
            decreases n - i,
        {
            let ghost kept_before = kept@;
            if keep[i] {
                let s = self.sessions[i].clone();
                proof {
                    assert forall|a: int| 0 <= a < kept@.len() implies #[trigger] kept@[a]@.id
                        != s@.id by {
                        let b = choose|b: int| 0 <= b < i && #[trigger] kept@[a]@ == old_sessions[b];
                        assert(old_sessions[b].id != old_sessions[i as int].id);
                    }
                }
                kept.push(s);
            }
            proof {
                assert forall|a: int| 0 <= a < kept@.len() implies exists|b: int|
                    0 <= b < i + 1 && #[trigger] kept@[a]@ == old_sessions[b] by {
                    if a == kept@.len() - 1 && keep@[i as int] {
                        assert(kept@[a]@ == old_sessions[i as int]);
                    } else {
                        assert(kept@[a] == kept_before[a]);
                        let b = choose|b: int| 0 <= b < i && #[trigger] kept_before[a]@ == old_sessions[b];
                    }
                }
                assert(old_sessions.take(i + 1).drop_last() =~= old_sessions.take(i as int));
                assert(keep@.take(i + 1).drop_last() =~= keep@.take(i as int));
                reveal_with_fuel(filter_mask, 2);
            }
            i = i + 1;
            proof {
                assert(kept@.map_values(|s: Session| s@) =~= filter_mask(
                    old_sessions.take(i as int),
                    keep@.take(i as int),
                ));
            }
        }
        self.sessions = kept;
        proof {
            assert(old_sessions.take(n as int) =~= old_sessions);
            assert(keep@.take(n as int) =~= keep@);
            assert forall|a: int, b: int|
                0 <= a < self@.sessions.len() && 0 <= b < self@.sessions.len()
                    && #[trigger] self@.sessions[a].id == #[trigger] self@.sessions[b].id implies a
                == b by {
                assert(self@.sessions[a] == kept@[a]@);
                assert(self@.sessions[b] == kept@[b]@);
            }
            assert forall|k: int| 0 <= k < self@.sessions.len() implies session_lists_own(
                self@.questions,
                #[trigger] self@.sessions[k],
            ) by {
                assert(self@.sessions[k] == kept@[k]@);
                let b = choose|b: int| 0 <= b < n && #[trigger] kept@[k]@ == old_sessions[b];
            }
        }
    }

    /// Adds an event for the user interface.
    pub fn push_event(&mut self, e: IpcToUiEvent)
        requires
            old(self).wf(),
        ensures
            final(self).wf(),
            final(self)@ == (StoreView { outbox: old(self)@.outbox.push(e@), ..old(self)@ }),
    {
        self.outbox.push(e);
        assert(self@.outbox =~= old(self)@.outbox.push(e@));
    }

    /// Whether the instant answer to question `id` was already delivered.
    pub fn was_delivered(&self, id: &str) -> (r: bool)
        ensures
            r == self@.delivered.contains(id@),
    {
        crate::text::list_contains(self.delivered_instant_ids.as_slice(), id)
    }

    /// Records that the instant answer to question `id` was delivered.
    pub fn push_delivered(&mut self, id: String)
        requires
            old(self).wf(),
            !old(self)@.delivered.contains(id@),
        ensures
            final(self).wf(),
            final(self)@ == (StoreView { delivered: old(self)@.delivered.push(id@), ..old(self)@ }),
    {
        self.delivered_instant_ids.push(id);
        proof {
            assert(self@.delivered =~= old(self)@.delivered.push(id@));
            assert forall|a: int, b: int|
                0 <= a < self@.delivered.len() && 0 <= b < self@.delivered.len() && a != b implies self@.delivered[a]
                != self@.delivered[b] by {
                let n = old(self)@.delivered.len() as int;
                if a == n {
                    assert(old(self)@.delivered[b] == self@.delivered[b]);
                    if old(self)@.delivered[b] == id@ {
                        assert(old(self)@.delivered.contains(id@));
                    }
                } else if b == n {
                    assert(old(self)@.delivered[a] == self@.delivered[a]);
                    if old(self)@.delivered[a] == id@ {
                        assert(old(self)@.delivered.contains(id@));
                    }
                } else {
                    assert(old(self)@.delivered[a] == self@.delivered[a]);
                    assert(old(self)@.delivered[b] == self@.delivered[b]);
                }
            }
        }
    }

    /// Marks the store as shutting down.
    pub fn set_shutting_down(&mut self)
        requires
            old(self).wf(),
        ensures
            final(self).wf(),
            final(self)@ == (StoreView { shutting_down: true, ..old(self)@ }),
    {
        self.shutting_down = true;
    }
}

impl AppState {
    /// Whether session `id` exists.
    pub fn has_session(&self, id: &str) -> (r: bool)
        requires
            self.wf(),
        ensures
            r == has_session(self@.sessions, id@),
    {
        self.find_session(id).is_some()
    }

    /// Session `id`, if it exists.
    pub fn session(&self, id: &str) -> (r: Option<&Session>)
        requires
            self.wf(),
        ensures
            match r {
                Some(s) => has_session(self@.sessions, id@) && s@ == self@.sessions[session_index(
                    self@.sessions,
                    id@,
                )],
                None => !has_session(self@.sessions, id@),
            },
    {
        match self.find_session(id) {
            Some(j) => Some(&self.sessions[j]),
            None => None,
        }
    }

    /// Question `id`, if the store holds it.
    pub fn question(&self, id: &str) -> (r: Option<&Question>)
        requires
            self.wf(),
        ensures
            match r {
                Some(q) => lookup(self@.questions, id@) == Some(q@),
                None => lookup(self@.questions, id@) is None,
            },
    {
        match self.find_question(id) {
            Some(k) => Some(&self.questions[k]),
            None => None,
        }
    }

    /// The session ids in the order the sessions were created.
    pub fn session_order(&self) -> (r: Vec<String>)
        ensures
            strs_view(r@) == self@.sessions.map_values(|s: SessionView| s.id),
    {
        let mut r: Vec<String> = Vec::new();
        let n = self.sessions.len();
        let mut i: usize = 0;
        while i < n
            invariant
                n == self@.sessions.len(),
                0 <= i <= n,
                strs_view(r@) == self@.sessions.take(i as int).map_values(|s: SessionView| s.id),
            decreases n - i,
        {
            let ghost before = r@;
            r.push(self.sessions[i].id.clone());
            proof {
                assert(self@.sessions[i as int] == self.sessions@[i as int]@);
                assert(strs_view(r@) =~= strs_view(before).push(self@.sessions[i as int].id));
                assert(self@.sessions.take(i + 1).map_values(|s: SessionView| s.id) =~= self@.sessions.take(
                    i as int,
                ).map_values(|s: SessionView| s.id).push(self@.sessions[i as int].id));
            }
            i = i + 1;
        }
        assert(self@.sessions.take(n as int) =~= self@.sessions);
        r
    }
}

} // verus!
