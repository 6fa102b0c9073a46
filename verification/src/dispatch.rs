//! From a line of text to a reply.
//!
//! [`route`] is the decision for one inbound line: parse it, then plan the
//! command, or answer a line that is no command. [`handle`] and [`serve`] run
//! lines against the store in memory, one after the other, each line one
//! step of the store at most.

use crate::command::{parsed_line, Command};
use crate::executor::{complete, completed, plan, planned, Sender, SenderView, Step, StepView};
use crate::store::{Store, StoreState};
use vstd::prelude::*;

verus! {

/// One inbound item: who sent it, and the line that was sent.
#[derive(PartialEq, Eq, Debug)]
pub struct Inbound {
    pub sender: Sender,
    pub text: String,
}

/// What an [`Inbound`] stands for in contracts.
pub struct InboundView {
    pub sender: SenderView,
    pub text: Seq<char>,
}

impl View for Inbound {
    type V = InboundView;

    open spec fn view(&self) -> InboundView {
        InboundView { sender: self.sender@, text: self.text@ }
    }
}

/// The step that a line calls for: that of its command, or at once the
/// reply that says why the line is no command.
pub open spec fn routed(sender: SenderView, line: Seq<char>) -> StepView {
    match parsed_line(line) {
        Ok(command) => planned(command, sender),
        Err(error) => StepView::Reply(error.reply()),
    }
}

/// The store after a line, and the reply to the line.
pub open spec fn handled(store: StoreState, sender: SenderView, line: Seq<char>) -> (
    StoreState,
    Seq<char>,
) {
    completed(store, routed(sender, line))
}

/// The store after a run of inbound items handled in their order, and the
/// replies, one for each item and in the same order.
pub open spec fn served(store: StoreState, inbound: Seq<InboundView>) -> (
    StoreState,
    Seq<Seq<char>>,
)
    decreases inbound.len(),
{
    if inbound.len() == 0 {
        (store, Seq::empty())
    } else {
        let (before, replies) = served(store, inbound.drop_last());
        let (after, reply) = handled(before, inbound.last().sender, inbound.last().text);
        (after, replies.push(reply))
    }
}

/// The views of a sequence of inbound items.
pub open spec fn inbound_views(items: Seq<Inbound>) -> Seq<InboundView> {
    Seq::new(items.len(), |i: int| items[i]@)
}

/// The views of a sequence of replies.
pub open spec fn reply_views(replies: Seq<String>) -> Seq<Seq<char>> {
    Seq::new(replies.len(), |i: int| replies[i]@)
}

/// Decides what a line asks for.
pub fn route(sender: &Sender, line: &str) -> (step: Step)
    ensures
        step@ == routed(sender@, line@),
{
    match Command::parse_line(line) {
        Ok(command) => plan(command, sender),
        Err(error) => Step::Reply(error.reply()),
    }
}

/// Handles one line against the store in memory and writes the reply.
pub fn handle(store: &mut Store, sender: &Sender, line: &str) -> (r: String)
    ensures
        final(store)@ == handled(old(store)@, sender@, line@).0,
        r@ == handled(old(store)@, sender@, line@).1,
{
    complete(store, route(sender, line))
}

/// Handles inbound items in their order against the store in memory and
/// returns the replies, one for each item.
pub fn serve(store: &mut Store, inbound: &Vec<Inbound>) -> (replies: Vec<String>)
    ensures
        final(store)@ == served(old(store)@, inbound_views(inbound@)).0,
        reply_views(replies@) == served(old(store)@, inbound_views(inbound@)).1,
        replies.len() == inbound.len(),
{
    let ghost items = inbound_views(inbound@);
    let mut replies: Vec<String> = Vec::new();
    let mut i: usize = 0;
    assert(items.take(0) =~= Seq::empty());
    assert(reply_views(replies@) =~= Seq::empty());
    while i < inbound.len()
        invariant
            i <= inbound.len(),
            items == inbound_views(inbound@),
            replies.len() == i,
            store@ == served(old(store)@, items.take(i as int)).0,
            reply_views(replies@) == served(old(store)@, items.take(i as int)).1,
        decreases inbound.len() - i,
    {
        let item = &inbound[i];
        let ghost before = reply_views(replies@);
        let reply = handle(store, &item.sender, item.text.as_str());
        replies.push(reply);
        proof {
            assert(items.take(i + 1).drop_last() =~= items.take(i as int));
            assert(items.take(i + 1).last() == item@);
            assert(reply_views(replies@) =~= before.push(reply@));
        }
        i += 1;
    }
    assert(items.take(i as int) =~= items);
    replies
}

} // verus!
