//! What each command asks of the store, and the reply to each outcome.
//!
//! A command is carried out in two steps around one store operation:
//! [`plan`] turns the command into a [`Step`], and [`reply_for`] turns the
//! store's outcome into the reply. [`execute`] does both against the store in
//! memory.

use crate::command::{help_spec, help_text, Command, CommandView};
use crate::gateway::{Outcome, OutcomeView, Request, RequestView};
use crate::store::{views, Proposal, ProposalView, Store, StoreState};
use crate::text::{decimal, push_decimal};
use vstd::prelude::*;

verus! {

/// What is known of the sender of a command. Either part may be missing.
#[derive(PartialEq, Eq, Debug)]
pub struct Sender {
    /// The sender's numeric identity.
    pub id: Option<i64>,
    /// The sender's display name.
    pub name: Option<String>,
}

/// What a [`Sender`] stands for in contracts.
pub struct SenderView {
    pub id: Option<i64>,
    pub name: Option<Seq<char>>,
}

impl View for Sender {
    type V = SenderView;

    open spec fn view(&self) -> SenderView {
        SenderView {
            id: self.id,
            name: match self.name {
                Some(name) => Some(name@),
                None => None,
            },
        }
    }
}

impl SenderView {
    /// The author id under which the sender's proposals are kept: the
    /// sender's id, and 0 where it is missing.
    pub open spec fn author_id(self) -> i64 {
        match self.id {
            Some(id) => id,
            None => 0,
        }
    }

    /// The author name under which the sender's proposals are kept: the
    /// sender's name, and the empty name where it is missing.
    pub open spec fn author_name(self) -> Seq<char> {
        match self.name {
            Some(name) => name,
            None => Seq::empty(),
        }
    }
}

impl Sender {
    /// The sender's id, or 0 where it is missing.
    pub fn author_id(&self) -> (r: i64)
        ensures
            r == self@.author_id(),
    {
        match self.id {
            Some(id) => id,
            None => 0,
        }
    }

    /// The sender's name, or the empty name where it is missing.
    pub fn author_name(&self) -> (r: String)
        ensures
            r@ == self@.author_name(),
    {
        match &self.name {
            Some(name) => name.clone(),
            None => String::new(),
        }
    }
}

/// What to do about a command.
#[derive(PartialEq, Eq, Debug)]
pub enum Step {
    /// Answer at once, without the store.
    Reply(String),
    /// Ask this of the store, and answer with [`reply_for`].
    Call(Request),
}

/// What a [`Step`] stands for in contracts.
pub enum StepView {
    Reply(Seq<char>),
    Call(RequestView),
}

impl View for Step {
    type V = StepView;

    open spec fn view(&self) -> StepView {
        match self {
            Step::Reply(text) => StepView::Reply(text@),
            Step::Call(request) => StepView::Call(request@),
        }
    }
}

/// The step that a command calls for: `help` is answered at once, every
/// other command is one store operation.
pub open spec fn planned(command: CommandView, sender: SenderView) -> StepView {
    match command {
        CommandView::Submit(text) => StepView::Call(
            RequestView::Create {
                author_id: sender.author_id(),
                author_name: sender.author_name(),
                text,
            },
        ),
        CommandView::View => StepView::Call(RequestView::List),
        CommandView::Vote { id } => StepView::Call(RequestView::Increment { id }),
        CommandView::Help => StepView::Reply(help_spec()),
    }
}

/// One proposal of a listing: a line with its id, author and votes, a line
/// with its text, and an empty line.
pub open spec fn block(p: ProposalView) -> Seq<char> {
    "ID: "@ + decimal(p.id as int) + " | By: "@ + p.author_name + " | Votes: "@ + decimal(
        p.votes as int,
    ) + "\n"@ + p.text + "\n\n"@
}

/// The blocks of the proposals, in their order.
pub open spec fn blocks(rows: Seq<ProposalView>) -> Seq<char>
    decreases rows.len(),
{
    if rows.len() == 0 {
        Seq::empty()
    } else {
        blocks(rows.drop_last()) + block(rows.last())
    }
}

/// A listing: the header line, then one block for each proposal.
pub open spec fn listing(rows: Seq<ProposalView>) -> Seq<char> {
    "Proposals:\n"@ + blocks(rows)
}

/// The reply where the store failed.
pub open spec fn failure() -> Seq<char> {
    "Something went wrong. Please try again later."@
}

/// The reply to the outcome of a request.
///
/// An outcome that does not belong to the request is answered like a failure.
pub open spec fn answer(request: RequestView, outcome: OutcomeView) -> Seq<char> {
    match (request, outcome) {
        (RequestView::Create { author_id, author_name, text }, OutcomeView::Created { id }) => {
            "Proposal submitted: "@ + text
        },
        (RequestView::List, OutcomeView::Listed(rows)) => listing(rows),
        (RequestView::Increment { id }, OutcomeView::Incremented { text }) => {
            "You voted for proposal: "@ + text
        },
        (RequestView::Increment { id }, OutcomeView::NotFound) => "Invalid proposal ID"@,
        _ => failure(),
    }
}

/// The store after a step, and the reply that the step ends with.
pub open spec fn completed(store: StoreState, step: StepView) -> (StoreState, Seq<char>) {
    match step {
        StepView::Reply(text) => (store, text),
        StepView::Call(request) => (store.after(request), answer(request, store.outcome(request))),
    }
}

/// The store after a command, and the reply to the command.
pub open spec fn executed(store: StoreState, command: CommandView, sender: SenderView) -> (
    StoreState,
    Seq<char>,
) {
    completed(store, planned(command, sender))
}

/// Decides what a command asks of the store.
pub fn plan(command: Command, sender: &Sender) -> (step: Step)
    ensures
        step@ == planned(command@, sender@),
{
    match command {
        Command::Submit(text) => Step::Call(
            Request::Create {
                author_id: sender.author_id(),
                author_name: sender.author_name(),
                text,
            },
        ),
        Command::View => Step::Call(Request::List),
        Command::Vote { id } => Step::Call(Request::Increment { id }),
        Command::Help => Step::Reply(help_text()),
    }
}

/// Writes a listing of the proposals, in the order given.
pub fn render_listing(rows: &Vec<Proposal>) -> (r: String)
    ensures
        r@ == listing(views(rows@)),
{
    let ghost shown = views(rows@);
    let mut r = String::from_str("Proposals:\n");
    let mut i: usize = 0;
    assert(shown.take(0) =~= Seq::empty());
    while i < rows.len()
        invariant
            i <= rows.len(),
            shown == views(rows@),
            r@ == listing(shown.take(i as int)),
        decreases rows.len() - i,
    {
        let p = &rows[i];
        let ghost before = r@;
        r.append("ID: ");
        push_decimal(&mut r, p.id as i64);
        r.append(" | By: ");
        r.append(p.author_name.as_str());
        r.append(" | Votes: ");
        push_decimal(&mut r, p.votes as i64);
        r.append("\n");
        r.append(p.text.as_str());
        r.append("\n\n");
        proof {
            assert(shown[i as int] == p@);
            assert(r@ =~= before + block(p@));
            assert(shown.take(i + 1).drop_last() =~= shown.take(i as int));
            assert(shown.take(i + 1).last() == p@);
            assert(r@ =~= listing(shown.take(i + 1)));
        }
        i += 1;
    }
    assert(shown.take(i as int) =~= shown);
    r
}

/// Writes the reply to the outcome of a request.
pub fn reply_for(request: &Request, outcome: &Outcome) -> (r: String)
    ensures
        r@ == answer(request@, outcome@),
{
    match (request, outcome) {
        (Request::Create { author_id, author_name, text }, Outcome::Created { id }) => {
            let mut r = String::from_str("Proposal submitted: ");
            r.append(text.as_str());
            r
        },
        (Request::List, Outcome::Listed(rows)) => render_listing(rows),
        (Request::Increment { id }, Outcome::Incremented { text }) => {
            let mut r = String::from_str("You voted for proposal: ");
            r.append(text.as_str());
            r
        },
        (Request::Increment { id }, Outcome::NotFound) => String::from_str("Invalid proposal ID"),
        _ => String::from_str("Something went wrong. Please try again later."),
    }
}

/// Takes a step against the store in memory and writes the reply.
pub fn complete(store: &mut Store, step: Step) -> (r: String)
    ensures
        final(store)@ == completed(old(store)@, step@).0,
        r@ == completed(old(store)@, step@).1,
{
    match step {
        Step::Reply(text) => text,
        Step::Call(request) => {
            let outcome = store.apply(&request);
            reply_for(&request, &outcome)
        },
    }
}

/// Carries a command out against the store in memory and writes the reply.
pub fn execute(store: &mut Store, command: Command, sender: &Sender) -> (r: String)
    ensures
        final(store)@ == executed(old(store)@, command@, sender@).0,
        r@ == executed(old(store)@, command@, sender@).1,
{
    complete(store, plan(command, sender))
}

} // verus!
