//! Requests and responses of the protocol.
use crate::types::{
    opt_choices_view, opt_str_view, strs_view, AnswerInfo, AnswerInfoView, DeniedInfo, DeniedInfoView,
    GetAnswersResult, Priority, QuestionChoice, ResultView,
};
use vstd::prelude::*;

verus! {

/// One question submitted by a client.
#[derive(Debug)]
pub struct AskItem {
    pub text: String,
    pub header: Option<String>,
    pub choices: Option<Vec<QuestionChoice>>,
    pub allow_other: bool,
    pub multi_select: bool,
    pub instant: bool,
    pub context: Option<String>,
    pub category: Option<String>,
    pub priority: Priority,
}

/// The model of a submitted question.
pub struct AskItemView {
    pub text: Seq<char>,
    pub header: Option<Seq<char>>,
    pub choices: Option<Seq<QuestionChoice>>,
    pub allow_other: bool,
    pub multi_select: bool,
    pub instant: bool,
    pub context: Option<Seq<char>>,
    pub category: Option<Seq<char>>,
    pub priority: Priority,
}

impl View for AskItem {
    type V = AskItemView;

    open spec fn view(&self) -> AskItemView {
        AskItemView {
            text: self.text@,
            header: opt_str_view(self.header),
            choices: opt_choices_view(self.choices),
            allow_other: self.allow_other,
            multi_select: self.multi_select,
            instant: self.instant,
            context: opt_str_view(self.context),
            category: opt_str_view(self.category),
            priority: self.priority,
        }
    }
}

/// The models of a sequence of submitted questions.
pub open spec fn item_views(s: Seq<AskItem>) -> Seq<AskItemView> {
    s.map_values(|i: AskItem| i@)
}

/// A request of a client.
#[derive(Debug)]
pub enum IpcRequest {
    Ask { session_id: String, display_name: Option<String>, questions: Vec<AskItem> },
    Wait { session_id: String, ids: Vec<String>, require_all: bool, timeout_secs: Option<u64> },
    Get { session_id: String, ids: Vec<String> },
    Dismiss { session_id: String, ids: Vec<String>, reason: Option<String> },
    OpenUi,
    /// Graceful shutdown of the application.
    Shutdown,
    Ping,
}

/// The model of a request.
pub enum RequestView {
    Ask(Seq<char>, Option<Seq<char>>, Seq<AskItemView>),
    Wait(Seq<char>, Seq<Seq<char>>, bool, Option<u64>),
    Get(Seq<char>, Seq<Seq<char>>),
    Dismiss(Seq<char>, Seq<Seq<char>>, Option<Seq<char>>),
    OpenUi,
    Shutdown,
    Ping,
}

impl View for IpcRequest {
    type V = RequestView;

    open spec fn view(&self) -> RequestView {
        match self {
            IpcRequest::Ask { session_id, display_name, questions } => RequestView::Ask(
                session_id@,
                opt_str_view(*display_name),
                item_views(questions@),
            ),
            IpcRequest::Wait { session_id, ids, require_all, timeout_secs } => RequestView::Wait(
                session_id@,
                strs_view(ids@),
                *require_all,
                *timeout_secs,
            ),
            IpcRequest::Get { session_id, ids } => RequestView::Get(session_id@, strs_view(ids@)),
            IpcRequest::Dismiss { session_id, ids, reason } => RequestView::Dismiss(
                session_id@,
                strs_view(ids@),
                opt_str_view(*reason),
            ),
            IpcRequest::OpenUi => RequestView::OpenUi,
            IpcRequest::Shutdown => RequestView::Shutdown,
            IpcRequest::Ping => RequestView::Ping,
        }
    }
}

/// The answer to a request.
#[derive(Debug)]
#[allow(inconsistent_fields)]
pub enum IpcResponse {
    AskOk { ids: Vec<String>, pending: usize },
    AnswersOk {
        answered: Vec<AnswerInfo>,
        denied: Vec<DeniedInfo>,
        pending: Vec<String>,
        timed_out: bool,
        shutdown: bool,
    },
    DismissOk { dismissed: Vec<String> },
    UiOk,
    Pong,
    Error { message: String },
}

/// The model of a response.
pub enum ResponseView {
    AskOk(Seq<Seq<char>>, nat),
    AnswersOk(ResultView),
    DismissOk(Seq<Seq<char>>),
    UiOk,
    Pong,
    Error(Seq<char>),
}

impl View for IpcResponse {
    type V = ResponseView;

    open spec fn view(&self) -> ResponseView {
        match self {
            IpcResponse::AskOk { ids, pending } => ResponseView::AskOk(
                strs_view(ids@),
                *pending as nat,
            ),
            IpcResponse::AnswersOk { answered, denied, pending, timed_out, shutdown } =>
                ResponseView::AnswersOk(
                ResultView {
                    answered: answered@.map_values(|a: AnswerInfo| a@),
                    denied: denied@.map_values(|d: DeniedInfo| d@),
                    pending: strs_view(pending@),
                    timed_out: *timed_out,
                    shutdown: *shutdown,
                },
            ),
            IpcResponse::DismissOk { dismissed } => ResponseView::DismissOk(strs_view(dismissed@)),
            IpcResponse::UiOk => ResponseView::UiOk,
            IpcResponse::Pong => ResponseView::Pong,
            IpcResponse::Error { message } => ResponseView::Error(message@),
        }
    }
}

impl IpcResponse {
    /// The response that carries a result.
    pub fn from_answers_result(result: GetAnswersResult) -> (r: Self)
        ensures
            r@ == ResponseView::AnswersOk(result@),
    {
        IpcResponse::AnswersOk {
            answered: result.answered,
            denied: result.denied,
            pending: result.pending,
            timed_out: result.timed_out,
            shutdown: result.shutdown,
        }
    }
}

} // verus!
