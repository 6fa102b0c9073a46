//! What holds of the board as a whole.
//!
//! Every store operation is one atomic step. Commands that run at the same
//! time therefore act on the store like some sequence of requests, and a law
//! that holds of every sequence holds of every interleaving.

use crate::command::{help_spec, parsed_line, CommandView, ParseErrorView};
use crate::dispatch::{handled, routed, served, InboundView};
use crate::executor::{executed, listing, planned, SenderView, StepView};
use crate::gateway::{OutcomeView, RequestView};
use crate::store::{
    is_ranking, lemma_ranking_exists, lemma_ranking_members, lemma_valid_distinct, precedes,
    StoreError, StoreState,
};
use vstd::prelude::*;

verus! {

/// The store after a sequence of requests, carried out in their order.
pub open spec fn run(store: StoreState, requests: Seq<RequestView>) -> StoreState
    decreases requests.len(),
{
    if requests.len() == 0 {
        store
    } else {
        run(store, requests.drop_last()).after(requests.last())
    }
}

/// How many of the requests are a vote for this id.
pub open spec fn votes_cast(requests: Seq<RequestView>, id: i32) -> nat
    decreases requests.len(),
{
    if requests.len() == 0 {
        0
    } else {
        votes_cast(requests.drop_last(), id) + if requests.last() == (RequestView::Increment {
            id,
        }) {
            1nat
        } else {
            0nat
        }
    }
}

/// No request breaks the store: ids stay positive, in rising order and
/// within the last one given out, and no row is ever removed.
pub proof fn lemma_after_valid(store: StoreState, request: RequestView)
    requires
        store.valid(),
    ensures
        store.after(request).valid(),
        store.after(request).rows.len() >= store.rows.len(),
        store.after(request).last_id >= store.last_id,
{
    let next = store.after(request);
    match request {
        RequestView::Create { author_id, author_name, text } => {
            if store.can_create() {
                assert forall|i: int, j: int| 0 <= i < j < next.rows.len() implies (
                #[trigger] next.rows[i]).id < (#[trigger] next.rows[j]).id by {
                    if j < store.rows.len() {
                        assert(store.rows[i].id < store.rows[j].id);
                    } else {
                        assert(store.rows[i].id <= store.last_id);
                    }
                }
            }
        },
        RequestView::List => {},
        RequestView::Increment { id } => {
            if store.can_vote(id) {
                assert forall|i: int, j: int| 0 <= i < j < next.rows.len() implies (
                #[trigger] next.rows[i]).id < (#[trigger] next.rows[j]).id by {
                    assert(store.rows[i].id < store.rows[j].id);
                }
                assert forall|i: int| 0 <= i < next.rows.len() implies 1 <= (
                #[trigger] next.rows[i]).id <= next.last_id by {
                    assert(1 <= store.rows[i].id <= store.last_id);
                }
            }
        },
    }
}

/// A proposal stays what it is: a request leaves its id, author and text
/// alone, and changes its votes only where it is a vote for that proposal,
/// by exactly one.
pub proof fn lemma_after_row(store: StoreState, request: RequestView, id: i32)
    requires
        store.valid(),
        store.has(id),
    ensures
        store.after(request).has(id),
        store.after(request).row(id).id == id,
        store.after(request).row(id).author_id == store.row(id).author_id,
        store.after(request).row(id).author_name == store.row(id).author_name,
        store.after(request).row(id).text == store.row(id).text,
        store.after(request).row(id).votes == store.row(id).votes + (if request == (
            RequestView::Increment { id }
        ) && store.row(id).votes < u32::MAX {
            1int
        } else {
            0int
        }),
{
    let next = store.after(request);
    let k = store.index_of(id);
    lemma_after_valid(store, request);
    lemma_valid_distinct(store);
    assert(next.rows[k].id == id);
    lemma_valid_distinct(next);
    assert(next.index_of(next.rows[k].id) == k);
    match request {
        RequestView::Increment { id: other } => {
            if store.can_vote(other) && other != id {
                assert(store.rows[store.index_of(other)].id == other);
            }
        },
        _ => {},
    }
}

/// A creation that succeeds gives the new proposal an id that no proposal had
/// before and that is greater than every id given out so far.
pub proof fn lemma_create_fresh_id(
    store: StoreState,
    author_id: i64,
    author_name: Seq<char>,
    text: Seq<char>,
)
    requires
        store.valid(),
        store.can_create(),
    ensures
        store.create_result() == Ok::<i32, StoreError>(
            store.fresh(author_id, author_name, text).id,
        ),
        !store.has(store.fresh(author_id, author_name, text).id),
        forall|i: int|
            0 <= i < store.rows.len() ==> (#[trigger] store.rows[i]).id < store.fresh(
                author_id,
                author_name,
                text,
            ).id,
        store.create(author_id, author_name, text).has(
            store.fresh(author_id, author_name, text).id,
        ),
        store.create(author_id, author_name, text).row(
            store.fresh(author_id, author_name, text).id,
        ) == store.fresh(author_id, author_name, text),
{
    let p = store.fresh(author_id, author_name, text);
    let next = store.create(author_id, author_name, text);
    assert forall|i: int| 0 <= i < store.rows.len() implies (#[trigger] store.rows[i]).id
        < p.id by {
        assert(store.rows[i].id <= store.last_id);
    }
    lemma_after_valid(store, RequestView::Create { author_id, author_name, text });
    lemma_valid_distinct(next);
    assert(next.rows[store.rows.len() as int] == p);
}

/// Votes add up. Whatever requests are carried out, in whatever order, a
/// proposal ends with the votes it had plus the number of votes for it among
/// the requests, as long as its counter can hold them. No vote is lost, and
/// nothing else about the proposal changes.
pub proof fn lemma_votes_add_up(store: StoreState, requests: Seq<RequestView>, id: i32)
    requires
        store.valid(),
        store.has(id),
        store.row(id).votes + votes_cast(requests, id) <= u32::MAX,
    ensures
        run(store, requests).valid(),
        run(store, requests).has(id),
        run(store, requests).row(id).votes == store.row(id).votes + votes_cast(requests, id),
        run(store, requests).row(id).text == store.row(id).text,
        run(store, requests).row(id).author_id == store.row(id).author_id,
        run(store, requests).row(id).author_name == store.row(id).author_name,
    decreases requests.len(),
{
    if requests.len() > 0 {
        let front = requests.drop_last();
        lemma_votes_add_up(store, front, id);
        lemma_after_valid(run(store, front), requests.last());
        lemma_after_row(run(store, front), requests.last(), id);
    }
}

/// How many of the inbound lines are a vote for this id.
pub open spec fn votes_asked(inbound: Seq<InboundView>, id: i32) -> nat
    decreases inbound.len(),
{
    if inbound.len() == 0 {
        0
    } else {
        votes_asked(inbound.drop_last(), id) + (if parsed_line(inbound.last().text) == Ok::<
            CommandView,
            ParseErrorView,
        >((CommandView::Vote { id })) {
            1nat
        } else {
            0nat
        })
    }
}

/// Votes add up from line to store. Whoever sends the lines and whatever
/// other lines come between them, a proposal ends with the votes it had plus
/// the number of lines that vote for it, as long as its counter can hold them.
pub proof fn lemma_served_votes_add_up(store: StoreState, inbound: Seq<InboundView>, id: i32)
    requires
        store.valid(),
        store.has(id),
        store.row(id).votes + votes_asked(inbound, id) <= u32::MAX,
    ensures
        served(store, inbound).0.valid(),
        served(store, inbound).0.has(id),
        served(store, inbound).0.row(id).votes == store.row(id).votes + votes_asked(inbound, id),
        served(store, inbound).0.row(id).text == store.row(id).text,
    decreases inbound.len(),
{
    if inbound.len() > 0 {
        let front = inbound.drop_last();
        lemma_served_votes_add_up(store, front, id);
        let before = served(store, front).0;
        match routed(inbound.last().sender, inbound.last().text) {
            StepView::Reply(_) => {},
            StepView::Call(request) => {
                lemma_after_valid(before, request);
                lemma_after_row(before, request, id);
            },
        }
    }
}

/// A vote for an id that no proposal has is answered with
/// `Invalid proposal ID` and leaves the store as it was.
pub proof fn lemma_vote_unknown_id(store: StoreState, sender: SenderView, id: i32)
    requires
        !store.has(id),
    ensures
        executed(store, (CommandView::Vote { id }), sender) == (store, "Invalid proposal ID"@),
{
}

/// A proposal that was just submitted is in the next listing, with its text
/// and without votes, whoever asks for the listing.
pub proof fn lemma_submit_then_view(
    store: StoreState,
    sender: SenderView,
    text: Seq<char>,
    viewer: SenderView,
)
    requires
        store.valid(),
        store.can_create(),
    ensures
        ({
            let (next, reply) = executed(store, CommandView::Submit(text), sender);
            let p = store.fresh(sender.author_id(), sender.author_name(), text);
            &&& reply == "Proposal submitted: "@ + text
            &&& p.text == text
            &&& p.votes == 0
            &&& next.list().contains(p)
            &&& executed(next, CommandView::View, viewer) == (next, listing(next.list()))
        }),
{
    let request = RequestView::Create {
        author_id: sender.author_id(),
        author_name: sender.author_name(),
        text,
    };
    let next = store.after(request);
    let p = store.fresh(sender.author_id(), sender.author_name(), text);
    lemma_after_valid(store, request);
    lemma_valid_distinct(next);
    lemma_ranking_exists(next.rows);
    lemma_ranking_members(next.rows, next.list());
    assert(next.rows[store.rows.len() as int] == p);
    assert(next.rows.contains(p));
}

/// A vote for the id that a submission returned is answered with the text
/// that was submitted, and gives the proposal its first vote.
pub proof fn lemma_submit_then_vote(
    store: StoreState,
    sender: SenderView,
    text: Seq<char>,
    voter: SenderView,
)
    requires
        store.valid(),
        store.can_create(),
    ensures
        ({
            let request = (RequestView::Create {
                author_id: sender.author_id(),
                author_name: sender.author_name(),
                text,
            });
            let next = executed(store, CommandView::Submit(text), sender).0;
            let id = store.fresh(sender.author_id(), sender.author_name(), text).id;
            let vote = (CommandView::Vote { id });
            &&& store.outcome(request) == (OutcomeView::Created { id })
            &&& executed(next, vote, voter).1 == "You voted for proposal: "@ + text
            &&& executed(next, vote, voter).0.row(id).votes == 1
        }),
{
    let request = RequestView::Create {
        author_id: sender.author_id(),
        author_name: sender.author_name(),
        text,
    };
    let next = store.after(request);
    let id = store.fresh(sender.author_id(), sender.author_name(), text).id;
    lemma_create_fresh_id(store, sender.author_id(), sender.author_name(), text);
    lemma_after_valid(store, request);
    lemma_after_row(next, RequestView::Increment { id }, id);
}

/// A listing holds every proposal of the store once and no other, and is
/// sorted: no entry has more votes than an entry before it, and of two entries
/// with the same votes the one created first stands first.
pub proof fn lemma_view_sorted(store: StoreState, viewer: SenderView)
    requires
        store.valid(),
    ensures
        executed(store, CommandView::View, viewer) == (store, listing(store.list())),
        is_ranking(store.rows, store.list()),
        store.list().len() == store.rows.len(),
        forall|i: int, j: int|
            0 <= i < j < store.list().len() ==> (#[trigger] store.list()[i]).votes >= (
            #[trigger] store.list()[j]).votes,
        forall|i: int, j: int|
            0 <= i < j < store.list().len() && store.list()[i].votes == store.list()[j].votes
                ==> (#[trigger] store.list()[i]).id < (#[trigger] store.list()[j]).id,
{
    lemma_valid_distinct(store);
    lemma_ranking_exists(store.rows);
    lemma_ranking_members(store.rows, store.list());
    let out = store.list();
    assert forall|i: int, j: int| 0 <= i < j < out.len() implies (#[trigger] out[i]).votes >= (
    #[trigger] out[j]).votes by {
        assert(precedes(out[i], out[j]));
    }
    assert forall|i: int, j: int|
        0 <= i < j < out.len() && out[i].votes == out[j].votes implies (#[trigger] out[i]).id < (
    #[trigger] out[j]).id by {
        assert(precedes(out[i], out[j]));
    }
}

/// `help` is answered with the help text, without a store operation; every
/// other command is exactly one store operation.
pub proof fn lemma_help_needs_no_store(store: StoreState, sender: SenderView, command: CommandView)
    ensures
        planned(CommandView::Help, sender) == StepView::Reply(help_spec()),
        executed(store, CommandView::Help, sender) == (store, help_spec()),
        planned(command, sender) is Call <==> command != CommandView::Help,
{
}

/// No line is met with silence: whatever the line, the sender and the state
/// of the store, the reply is not empty.
pub proof fn lemma_never_silent(store: StoreState, sender: SenderView, line: Seq<char>)
    ensures
        handled(store, sender, line).1.len() > 0,
{
    reveal_strlit("These are the available commands:");
    reveal_strlit("Unknown command: ");
    reveal_strlit("Invalid proposal id: ");
    reveal_strlit("Proposal submitted: ");
    reveal_strlit("Proposals:\n");
    reveal_strlit("You voted for proposal: ");
    reveal_strlit("Invalid proposal ID");
    reveal_strlit("Something went wrong. Please try again later.");
    assert(help_spec().len() > 0);
}

/// A line that is no command is answered at once with the reply of its
/// parse error: no store operation is made, and the store stays as it was.
pub proof fn lemma_parse_error_no_call(store: StoreState, sender: SenderView, line: Seq<char>)
    requires
        parsed_line(line) is Err,
    ensures
        routed(sender, line) == StepView::Reply(parsed_line(line)->Err_0.reply()),
        handled(store, sender, line) == (store, parsed_line(line)->Err_0.reply()),
{
}

/// Every inbound item gets exactly one reply, and the store stays valid.
pub proof fn lemma_served_replies(store: StoreState, inbound: Seq<InboundView>)
    requires
        store.valid(),
    ensures
        served(store, inbound).1.len() == inbound.len(),
        served(store, inbound).0.valid(),
    decreases inbound.len(),
{
    if inbound.len() > 0 {
        lemma_served_replies(store, inbound.drop_last());
        let before = served(store, inbound.drop_last()).0;
        match routed(inbound.last().sender, inbound.last().text) {
            StepView::Reply(_) => {},
            StepView::Call(request) => {
                lemma_after_valid(before, request);
            },
        }
    }
}

} // verus!
