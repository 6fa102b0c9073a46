use proposal_bot::command::{help_text, Command};
use proposal_bot::executor::{execute, plan, render_listing, reply_for, Sender, Step};
use proposal_bot::gateway::{Outcome, Request};
use proposal_bot::store::{Proposal, Store};

const FAILURE: &str = "Something went wrong. Please try again later.";

fn sender(id: i64, name: &str) -> Sender {
    Sender { id: Some(id), name: Some(name.to_string()) }
}

fn nobody() -> Sender {
    Sender { id: None, name: None }
}

fn proposal(id: i32, author_name: &str, text: &str, votes: u32) -> Proposal {
    Proposal { id, author_id: 0, author_name: author_name.to_string(), text: text.to_string(), votes }
}

#[test]
fn missing_identity_defaults_to_zero_and_empty() {
    assert_eq!(nobody().author_id(), 0);
    assert_eq!(nobody().author_name(), "");
    assert_eq!(sender(77, "zoe").author_id(), 77);
    assert_eq!(sender(77, "zoe").author_name(), "zoe");
    let half = Sender { id: Some(-4), name: None };
    assert_eq!(half.author_id(), -4);
    assert_eq!(half.author_name(), "");
}

#[test]
fn submit_plans_a_creation_under_the_sender() {
    assert_eq!(
        plan(Command::Submit("Build a park".to_string()), &sender(9, "kim")),
        Step::Call(Request::Create {
            author_id: 9,
            author_name: "kim".to_string(),
            text: "Build a park".to_string()
        })
    );
    assert_eq!(
        plan(Command::Submit(String::new()), &nobody()),
        Step::Call(Request::Create { author_id: 0, author_name: String::new(), text: String::new() })
    );
}

#[test]
fn view_and_vote_plan_one_store_operation() {
    assert_eq!(plan(Command::View, &nobody()), Step::Call(Request::List));
    assert_eq!(plan(Command::Vote { id: -3 }, &nobody()), Step::Call(Request::Increment { id: -3 }));
}

#[test]
fn help_is_answered_without_the_store() {
    assert_eq!(plan(Command::Help, &nobody()), Step::Reply(help_text()));
}

#[test]
fn replies_to_each_outcome() {
    let create = Request::Create { author_id: 1, author_name: "a".to_string(), text: "Build a park".to_string() };
    assert_eq!(reply_for(&create, &Outcome::Created { id: 4 }), "Proposal submitted: Build a park");
    let vote = Request::Increment { id: 4 };
    assert_eq!(
        reply_for(&vote, &Outcome::Incremented { text: "Build a park".to_string() }),
        "You voted for proposal: Build a park"
    );
    assert_eq!(reply_for(&vote, &Outcome::NotFound), "Invalid proposal ID");
    assert_eq!(reply_for(&Request::List, &Outcome::Listed(Vec::new())), "Proposals:\n");
}

#[test]
fn a_failed_store_gets_the_failure_reply() {
    let create = Request::Create { author_id: 1, author_name: "a".to_string(), text: "t".to_string() };
    let vote = Request::Increment { id: 4 };
    assert_eq!(reply_for(&create, &Outcome::Failed), FAILURE);
    assert_eq!(reply_for(&Request::List, &Outcome::Failed), FAILURE);
    assert_eq!(reply_for(&vote, &Outcome::Failed), FAILURE);
}

#[test]
fn an_outcome_of_another_request_gets_the_failure_reply() {
    let create = Request::Create { author_id: 1, author_name: "a".to_string(), text: "t".to_string() };
    assert_eq!(reply_for(&create, &Outcome::NotFound), FAILURE);
    assert_eq!(reply_for(&create, &Outcome::Listed(Vec::new())), FAILURE);
    assert_eq!(reply_for(&Request::List, &Outcome::Created { id: 1 }), FAILURE);
    assert_eq!(reply_for(&Request::List, &Outcome::NotFound), FAILURE);
    assert_eq!(reply_for(&Request::Increment { id: 1 }, &Outcome::Created { id: 1 }), FAILURE);
}

#[test]
fn a_listing_has_a_header_and_a_block_for_each_proposal() {
    let rows = vec![proposal(3, "ann", "More trees", 5), proposal(-1, "", "", 0), proposal(12, "bob", "two\nlines", 4294967295)];
    assert_eq!(
        render_listing(&rows),
        "Proposals:\nID: 3 | By: ann | Votes: 5\nMore trees\n\nID: -1 | By:  | Votes: 0\n\n\nID: 12 | By: bob | Votes: 4294967295\ntwo\nlines\n\n"
    );
}

#[test]
fn a_listing_keeps_the_order_it_is_given() {
    let rows = vec![proposal(1, "a", "x", 1), proposal(2, "b", "y", 9)];
    assert_eq!(
        reply_for(&Request::List, &Outcome::Listed(rows)),
        "Proposals:\nID: 1 | By: a | Votes: 1\nx\n\nID: 2 | By: b | Votes: 9\ny\n\n"
    );
}

#[test]
fn an_empty_store_lists_only_the_header() {
    let mut store = Store::new();
    assert_eq!(execute(&mut store, Command::View, &nobody()), "Proposals:\n");
}

#[test]
fn execute_runs_a_command_against_the_store() {
    let mut store = Store::new();
    assert_eq!(
        execute(&mut store, Command::Submit("Build a park".to_string()), &sender(8, "lee")),
        "Proposal submitted: Build a park"
    );
    assert_eq!(
        execute(&mut store, Command::Vote { id: 1 }, &nobody()),
        "You voted for proposal: Build a park"
    );
    assert_eq!(execute(&mut store, Command::Vote { id: 2 }, &nobody()), "Invalid proposal ID");
    assert_eq!(
        execute(&mut store, Command::View, &nobody()),
        "Proposals:\nID: 1 | By: lee | Votes: 1\nBuild a park\n\n"
    );
    assert_eq!(execute(&mut store, Command::Help, &nobody()), help_text());
    assert_eq!(store.len(), 1);
}
