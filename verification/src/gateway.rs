//! The conversation with a store: one request, one outcome.
//!
//! Whoever holds the real store carries a [`Request`] out and tells what
//! happened as an [`Outcome`]. [`Store::apply`] does so for the store in
//! memory, and [`StoreState::after`] and [`StoreState::outcome`] say what it must do.

use crate::store::{views, Proposal, ProposalView, Store, StoreError, StoreState};
use vstd::prelude::*;

verus! {

/// One operation asked of the store.
#[derive(PartialEq, Eq, Debug)]
pub enum Request {
    /// Create a proposal without votes.
    Create { author_id: i64, author_name: String, text: String },
    /// List the proposals, most votes first.
    List,
    /// Add one vote to a proposal and return its text, in one step.
    Increment { id: i32 },
}

/// What a [`Request`] stands for in contracts.
pub enum RequestView {
    Create { author_id: i64, author_name: Seq<char>, text: Seq<char> },
    List,
    Increment { id: i32 },
}

impl View for Request {
    type V = RequestView;

    open spec fn view(&self) -> RequestView {
        match self {
            Request::Create { author_id, author_name, text } => RequestView::Create {
                author_id: *author_id,
                author_name: author_name@,
                text: text@,
            },
            Request::List => RequestView::List,
            Request::Increment { id } => RequestView::Increment { id: *id },
        }
    }
}

/// What became of a [`Request`].
#[derive(PartialEq, Eq, Debug)]
pub enum Outcome {
    /// The proposal was created under this id.
    Created { id: i32 },
    /// The proposals, in the order in which the store listed them.
    Listed(Vec<Proposal>),
    /// The vote was counted; this is the text of the proposal.
    Incremented { text: String },
    /// No proposal has the id that was voted for.
    NotFound,
    /// The store could not carry the operation out.
    Failed,
}

/// What an [`Outcome`] stands for in contracts.
pub enum OutcomeView {
    Created { id: i32 },
    Listed(Seq<ProposalView>),
    Incremented { text: Seq<char> },
    NotFound,
    Failed,
}

impl View for Outcome {
    type V = OutcomeView;

    open spec fn view(&self) -> OutcomeView {
        match self {
            Outcome::Created { id } => OutcomeView::Created { id: *id },
            Outcome::Listed(rows) => OutcomeView::Listed(views(rows@)),
            Outcome::Incremented { text } => OutcomeView::Incremented { text: text@ },
            Outcome::NotFound => OutcomeView::NotFound,
            Outcome::Failed => OutcomeView::Failed,
        }
    }
}

impl StoreState {
    /// The store after a request. Only a creation and a counted vote change
    /// it; a listing never does.
    pub open spec fn after(self, request: RequestView) -> StoreState {
        match request {
            RequestView::Create { author_id, author_name, text } => self.create(
                author_id,
                author_name,
                text,
            ),
            RequestView::List => self,
            RequestView::Increment { id } => self.increment(id),
        }
    }

    /// The outcome of a request.
    pub open spec fn outcome(self, request: RequestView) -> OutcomeView {
        match request {
            RequestView::Create { author_id, author_name, text } => match self.create_result() {
                Ok(id) => OutcomeView::Created { id },
                Err(_) => OutcomeView::Failed,
            },
            RequestView::List => OutcomeView::Listed(self.list()),
            RequestView::Increment { id } => match self.increment_result(id) {
                Ok(text) => OutcomeView::Incremented { text },
                Err(StoreError::NotFound) => OutcomeView::NotFound,
                Err(StoreError::Storage) => OutcomeView::Failed,
            },
        }
    }
}

impl Store {
    /// Carries one request out.
    pub fn apply(&mut self, request: &Request) -> (outcome: Outcome)
        ensures
            final(self)@ == old(self)@.after(request@),
            outcome@ == old(self)@.outcome(request@),
    {
        match request {
            Request::Create { author_id, author_name, text } => {
                match self.create_proposal(*author_id, author_name.clone(), text.clone()) {
                    Ok(id) => Outcome::Created { id },
                    Err(_) => Outcome::Failed,
                }
            },
            Request::List => Outcome::Listed(self.list_proposals()),
            Request::Increment { id } => match self.increment_vote(*id) {
                Ok(text) => Outcome::Incremented { text },
                Err(StoreError::NotFound) => Outcome::NotFound,
                Err(StoreError::Storage) => Outcome::Failed,
            },
        }
    }
}

} // verus!
