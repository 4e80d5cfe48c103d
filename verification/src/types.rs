//! Core data types: questions, sessions, answers and the events that the
//! store hands to the user interface.
use std::collections::HashMap;
use vstd::prelude::*;

verus! {

/// The characters of an optional string.
pub open spec fn opt_str_view(o: Option<String>) -> Option<Seq<char>> {
    match o {
        Some(s) => Some(s@),
        None => None,
    }
}

/// The characters of each string of a sequence.
pub open spec fn strs_view(v: Seq<String>) -> Seq<Seq<char>> {
    v.map_values(|s: String| s@)
}

/// How urgent a question is.
#[derive(Debug, Clone, Copy, PartialEq, Eq, Structural)]
pub enum Priority {
    Critical,
    High,
    Normal,
    Low,
}

impl Default for Priority {
    fn default() -> (p: Self)
        ensures
            p == Priority::Normal,
    {
        Priority::Normal
    }
}

/// Where a question stands in its life cycle. Only a `Pending` question can
/// change; every other status is final.
#[derive(Debug, Clone, Copy, PartialEq, Eq, Structural)]
pub enum QuestionStatus {
    Pending,
    Answered,
    Dismissed,
    Denied,
}

/// One choice offered with a question.
#[derive(Debug)]
pub struct QuestionChoice {
    pub label: String,
    pub description: Option<String>,
}

impl Clone for QuestionChoice {
    fn clone(&self) -> (r: Self)
        ensures
            r == *self,
    {
        QuestionChoice { label: self.label.clone(), description: self.description.clone() }
    }
}

/// What the user added to one selected choice. The confidence is carried as
/// the bit pattern of the user's floating-point value; the store never looks
/// at it.
#[derive(Debug)]
pub struct SelectionDetail {
    pub confidence_bits: Option<u64>,
    pub note: Option<String>,
}

impl Clone for SelectionDetail {
    fn clone(&self) -> (r: Self)
        ensures
            r == *self,
    {
        SelectionDetail { confidence_bits: self.confidence_bits, note: self.note.clone() }
    }
}

/// The user's answer: the selected choices (keyed by the choice's index
/// written in decimal) and an optional free text.
#[derive(Debug)]
pub struct QuestionAnswer {
    pub selections: HashMap<String, SelectionDetail>,
    pub text: Option<String>,
}

/// The model of an answer.
pub struct AnswerView {
    pub selections: Map<String, SelectionDetail>,
    pub text: Option<Seq<char>>,
}

impl View for QuestionAnswer {
    type V = AnswerView;

    open spec fn view(&self) -> AnswerView {
        AnswerView { selections: self.selections@, text: opt_str_view(self.text) }
    }
}

/// The model of an optional answer.
pub open spec fn opt_answer_view(a: Option<QuestionAnswer>) -> Option<AnswerView> {
    match a {
        Some(x) => Some(x@),
        None => None,
    }
}

impl Clone for QuestionAnswer {
    fn clone(&self) -> (r: Self)
        ensures
            r@ == self@,
    {
        QuestionAnswer { selections: self.selections.clone(), text: self.text.clone() }
    }
}

/// A question in the store.
#[derive(Debug)]
pub struct Question {
    pub id: String,
    pub session_id: String,
    pub text: String,
    pub header: Option<String>,
    pub choices: Option<Vec<QuestionChoice>>,
    pub allow_other: bool,
    pub multi_select: bool,
    pub instant: bool,
    pub context: Option<String>,
    pub category: Option<String>,
    pub priority: Priority,
    pub status: QuestionStatus,
    pub created_at: u64,
    pub answered_at: Option<u64>,
    pub answer: Option<QuestionAnswer>,
    pub dismiss_reason: Option<String>,
}

/// The model of optional choices.
pub open spec fn opt_choices_view(c: Option<Vec<QuestionChoice>>) -> Option<Seq<QuestionChoice>> {
    match c {
        Some(v) => Some(v@),
        None => None,
    }
}

/// The model of a question.
pub struct QuestionView {
    pub id: Seq<char>,
    pub session_id: Seq<char>,
    pub text: Seq<char>,
    pub header: Option<Seq<char>>,
    pub choices: Option<Seq<QuestionChoice>>,
    pub allow_other: bool,
    pub multi_select: bool,
    pub instant: bool,
    pub context: Option<Seq<char>>,
    pub category: Option<Seq<char>>,
    pub priority: Priority,
    pub status: QuestionStatus,
    pub created_at: u64,
    pub answered_at: Option<u64>,
    pub answer: Option<AnswerView>,
    pub dismiss_reason: Option<Seq<char>>,
}

impl View for Question {
    type V = QuestionView;

    open spec fn view(&self) -> QuestionView {
        QuestionView {
            id: self.id@,
            session_id: self.session_id@,
            text: self.text@,
            header: opt_str_view(self.header),
            choices: opt_choices_view(self.choices),
            allow_other: self.allow_other,
            multi_select: self.multi_select,
            instant: self.instant,
            context: opt_str_view(self.context),
            category: opt_str_view(self.category),
            priority: self.priority,
            status: self.status,
            created_at: self.created_at,
            answered_at: self.answered_at,
            answer: opt_answer_view(self.answer),
            dismiss_reason: opt_str_view(self.dismiss_reason),
        }
    }
}

fn clone_choices(c: &Option<Vec<QuestionChoice>>) -> (r: Option<Vec<QuestionChoice>>)
    ensures
        match (*c, r) {
            (Some(a), Some(b)) => a@ == b@,
            (None, None) => true,
            _ => false,
        },
{
    match c {
        Some(v) => {
            let w = v.clone();
            assert(w@ =~= v@);
            Some(w)
        },
        None => None,
    }
}

fn clone_answer(a: &Option<QuestionAnswer>) -> (r: Option<QuestionAnswer>)
    ensures
        match (*a, r) {
            (Some(x), Some(y)) => x@ == y@,
            (None, None) => true,
            _ => false,
        },
{
    match a {
        Some(x) => Some(x.clone()),
        None => None,
    }
}

impl Clone for Question {
    fn clone(&self) -> (r: Self)
        ensures
            r@ == self@,
    {
        Question {
            id: self.id.clone(),
            session_id: self.session_id.clone(),
            text: self.text.clone(),
            header: self.header.clone(),
            choices: clone_choices(&self.choices),
            allow_other: self.allow_other,
            multi_select: self.multi_select,
            instant: self.instant,
            context: self.context.clone(),
            category: self.category.clone(),
            priority: self.priority,
            status: self.status,
            created_at: self.created_at,
            answered_at: self.answered_at,
            answer: clone_answer(&self.answer),
            dismiss_reason: self.dismiss_reason.clone(),
        }
    }
}

/// The default of the `allow_other` flag of a question.
pub fn default_true() -> (b: bool)
    ensures
        b,
{
    true
}

/// The models of a sequence of questions.
pub open spec fn question_views(s: Seq<Question>) -> Seq<QuestionView> {
    s.map_values(|q: Question| q@)
}

/// A session: one agent conversation, with its questions in the order they
/// were asked.
#[derive(Debug)]
pub struct Session {
    pub id: String,
    pub display_name: String,
    pub created_at: u64,
    pub question_ids: Vec<String>,
}

/// The model of a session.
pub struct SessionView {
    pub id: Seq<char>,
    pub display_name: Seq<char>,
    pub created_at: u64,
    pub question_ids: Seq<Seq<char>>,
}

impl View for Session {
    type V = SessionView;

    open spec fn view(&self) -> SessionView {
        SessionView {
            id: self.id@,
            display_name: self.display_name@,
            created_at: self.created_at,
            question_ids: strs_view(self.question_ids@),
        }
    }
}

/// A copy of a list of strings.
pub fn clone_strings(v: &Vec<String>) -> (r: Vec<String>)
    ensures
        r@ == v@,
        strs_view(r@) == strs_view(v@),
{
    let r = v.clone();
    assert(r@ =~= v@);
    r
}

impl Clone for Session {
    fn clone(&self) -> (r: Self)
        ensures
            r@ == self@,
    {
        Session {
            id: self.id.clone(),
            display_name: self.display_name.clone(),
            created_at: self.created_at,
            question_ids: clone_strings(&self.question_ids),
        }
    }
}

/// An answered question in a result.
#[derive(Debug)]
pub struct AnswerInfo {
    pub id: String,
    pub answer: QuestionAnswer,
}

/// The model of an answered entry of a result.
pub struct AnswerInfoView {
    pub id: Seq<char>,
    pub answer: AnswerView,
}

impl View for AnswerInfo {
    type V = AnswerInfoView;

    open spec fn view(&self) -> AnswerInfoView {
        AnswerInfoView { id: self.id@, answer: self.answer@ }
    }
}

/// A cancelled question in a result, with the reason ("" when none was
/// given).
#[derive(Debug)]
pub struct DeniedInfo {
    pub id: String,
    pub reason: String,
}

/// The model of a cancelled entry of a result.
pub struct DeniedInfoView {
    pub id: Seq<char>,
    pub reason: Seq<char>,
}

impl View for DeniedInfo {
    type V = DeniedInfoView;

    open spec fn view(&self) -> DeniedInfoView {
        DeniedInfoView { id: self.id@, reason: self.reason@ }
    }
}

/// A snapshot of the answer state of some questions.
#[derive(Debug)]
pub struct GetAnswersResult {
    pub answered: Vec<AnswerInfo>,
    pub denied: Vec<DeniedInfo>,
    pub pending: Vec<String>,
    pub timed_out: bool,
    pub shutdown: bool,
}

/// The model of a result.
pub struct ResultView {
    pub answered: Seq<AnswerInfoView>,
    pub denied: Seq<DeniedInfoView>,
    pub pending: Seq<Seq<char>>,
    pub timed_out: bool,
    pub shutdown: bool,
}

impl View for GetAnswersResult {
    type V = ResultView;

    open spec fn view(&self) -> ResultView {
        ResultView {
            answered: self.answered@.map_values(|a: AnswerInfo| a@),
            denied: self.denied@.map_values(|d: DeniedInfo| d@),
            pending: strs_view(self.pending@),
            timed_out: self.timed_out,
            shutdown: self.shutdown,
        }
    }
}

/// What the store tells the user interface.
#[derive(Debug)]
pub enum IpcToUiEvent {
    QuestionAdded { question: Question },
    QuestionsBatch { questions: Vec<Question> },
    QuestionsDismissed { question_ids: Vec<String> },
    SessionAdded { session: Session },
    /// `keep_questions` is true for the automatic clean-up (the questions stay
    /// readable for waiting clients) and false for an explicit removal.
    SessionRemoved { session_id: String, keep_questions: bool },
    SessionUpdated { session: Session },
    ShowWindow,
    /// Graceful shutdown: let in-flight responses drain, then exit.
    Shutdown,
}

/// The model of an event.
pub enum UiEventView {
    QuestionAdded(QuestionView),
    QuestionsBatch(Seq<QuestionView>),
    QuestionsDismissed(Seq<Seq<char>>),
    SessionAdded(SessionView),
    SessionRemoved(Seq<char>, bool),
    SessionUpdated(SessionView),
    ShowWindow,
    Shutdown,
}

impl View for IpcToUiEvent {
    type V = UiEventView;

    open spec fn view(&self) -> UiEventView {
        match self {
            IpcToUiEvent::QuestionAdded { question } => UiEventView::QuestionAdded(question@),
            IpcToUiEvent::QuestionsBatch { questions } => UiEventView::QuestionsBatch(
                question_views(questions@),
            ),
            IpcToUiEvent::QuestionsDismissed { question_ids } => UiEventView::QuestionsDismissed(
                strs_view(question_ids@),
            ),
            IpcToUiEvent::SessionAdded { session } => UiEventView::SessionAdded(session@),
            IpcToUiEvent::SessionRemoved { session_id, keep_questions } =>
                UiEventView::SessionRemoved(session_id@, *keep_questions),
            IpcToUiEvent::SessionUpdated { session } => UiEventView::SessionUpdated(session@),
            IpcToUiEvent::ShowWindow => UiEventView::ShowWindow,
            IpcToUiEvent::Shutdown => UiEventView::Shutdown,
        }
    }
}

} // verus!
