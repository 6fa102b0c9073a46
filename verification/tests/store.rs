use proposal_bot::gateway::{Outcome, Request};
use proposal_bot::store::{Proposal, Store, StoreError};

fn proposal(id: i32, author_id: i64, author_name: &str, text: &str, votes: u32) -> Proposal {
    Proposal { id, author_id, author_name: author_name.to_string(), text: text.to_string(), votes }
}

fn vote_times(store: &mut Store, id: i32, times: u32) {
    for _ in 0..times {
        store.increment_vote(id).unwrap();
    }
}

#[test]
fn a_new_store_is_empty() {
    let store = Store::new();
    assert_eq!(store.len(), 0);
    assert_eq!(store.last_id(), 0);
    assert_eq!(store.list_proposals(), Vec::new());
    assert_eq!(store.get(1), None);
}

#[test]
fn ids_are_given_out_in_rising_order_from_one() {
    let mut store = Store::new();
    assert_eq!(store.create_proposal(10, "ann".to_string(), "a".to_string()), Ok(1));
    assert_eq!(store.create_proposal(11, "bob".to_string(), "b".to_string()), Ok(2));
    assert_eq!(store.create_proposal(10, "ann".to_string(), "a".to_string()), Ok(3));
    assert_eq!(store.len(), 3);
    assert_eq!(store.last_id(), 3);
    assert_eq!(
        store.snapshot(),
        vec![proposal(1, 10, "ann", "a", 0), proposal(2, 11, "bob", "b", 0), proposal(3, 10, "ann", "a", 0)]
    );
}

#[test]
fn a_created_proposal_has_no_votes() {
    let mut store = Store::new();
    let id = store.create_proposal(5, "eve".to_string(), "More trees".to_string()).unwrap();
    assert_eq!(store.get(id), Some(proposal(1, 5, "eve", "More trees", 0)));
}

#[test]
fn a_vote_adds_one_and_returns_the_text() {
    let mut store = Store::new();
    store.create_proposal(1, "a".to_string(), "first".to_string()).unwrap();
    store.create_proposal(2, "b".to_string(), "second".to_string()).unwrap();
    assert_eq!(store.increment_vote(2), Ok("second".to_string()));
    assert_eq!(store.increment_vote(2), Ok("second".to_string()));
    assert_eq!(store.increment_vote(1), Ok("first".to_string()));
    assert_eq!(store.get(1).unwrap().votes, 1);
    assert_eq!(store.get(2).unwrap().votes, 2);
    assert_eq!(store.get(2), Some(proposal(2, 2, "b", "second", 2)));
}

#[test]
fn a_vote_for_an_unknown_id_changes_nothing() {
    let mut store = Store::new();
    store.create_proposal(1, "a".to_string(), "first".to_string()).unwrap();
    store.increment_vote(1).unwrap();
    let before = store.snapshot();
    for id in [0, 2, -1, i32::MAX, i32::MIN] {
        assert_eq!(store.increment_vote(id), Err(StoreError::NotFound));
    }
    assert_eq!(store.snapshot(), before);
    assert_eq!(store.last_id(), 1);
}

#[test]
fn listing_is_sorted_by_votes_descending() {
    let mut store = Store::new();
    for text in ["a", "b", "c"] {
        store.create_proposal(0, String::new(), text.to_string()).unwrap();
    }
    vote_times(&mut store, 1, 3);
    vote_times(&mut store, 2, 1);
    vote_times(&mut store, 3, 5);
    let votes: Vec<u32> = store.list_proposals().iter().map(|p| p.votes).collect();
    assert_eq!(votes, vec![5, 3, 1]);
    let ids: Vec<i32> = store.list_proposals().iter().map(|p| p.id).collect();
    assert_eq!(ids, vec![3, 1, 2]);
    // The rows themselves stay in the order of their creation.
    let kept: Vec<i32> = store.snapshot().iter().map(|p| p.id).collect();
    assert_eq!(kept, vec![1, 2, 3]);
}

#[test]
fn equal_votes_are_listed_in_order_of_creation() {
    let mut store = Store::new();
    for text in ["a", "b", "c", "d", "e"] {
        store.create_proposal(0, String::new(), text.to_string()).unwrap();
    }
    vote_times(&mut store, 4, 2);
    vote_times(&mut store, 2, 2);
    vote_times(&mut store, 5, 1);
    let ids: Vec<i32> = store.list_proposals().iter().map(|p| p.id).collect();
    assert_eq!(ids, vec![2, 4, 5, 1, 3]);
}

#[test]
fn a_listing_is_a_snapshot() {
    let mut store = Store::new();
    store.create_proposal(0, String::new(), "a".to_string()).unwrap();
    store.create_proposal(0, String::new(), "b".to_string()).unwrap();
    let listed = store.list_proposals();
    vote_times(&mut store, 2, 4);
    assert_eq!(listed, vec![proposal(1, 0, "", "a", 0), proposal(2, 0, "", "b", 0)]);
    assert_eq!(store.list_proposals(), vec![proposal(2, 0, "", "b", 4), proposal(1, 0, "", "a", 0)]);
}

#[test]
fn votes_add_up_whatever_comes_between() {
    let mut store = Store::new();
    store.create_proposal(0, String::new(), "a".to_string()).unwrap();
    store.create_proposal(0, String::new(), "b".to_string()).unwrap();
    vote_times(&mut store, 1, 4);
    let before = store.get(1).unwrap().votes;
    let n = 25;
    for round in 0..n {
        assert_eq!(store.increment_vote(1), Ok("a".to_string()));
        match round % 4 {
            0 => {
                store.increment_vote(2).unwrap();
            }
            1 => {
                store.create_proposal(round as i64, "x".to_string(), "more".to_string()).unwrap();
            }
            2 => {
                store.list_proposals();
            }
            _ => {
                assert_eq!(store.increment_vote(1000), Err(StoreError::NotFound));
            }
        }
    }
    assert_eq!(store.get(1).unwrap().votes, before + n);
    assert_eq!(store.get(1).unwrap().text, "a");
}

#[test]
fn apply_gives_each_outcome() {
    let mut store = Store::new();
    let create = Request::Create { author_id: 3, author_name: "cy".to_string(), text: "t".to_string() };
    assert_eq!(store.apply(&create), Outcome::Created { id: 1 });
    assert_eq!(store.apply(&Request::Increment { id: 1 }), Outcome::Incremented { text: "t".to_string() });
    assert_eq!(store.apply(&Request::Increment { id: 2 }), Outcome::NotFound);
    assert_eq!(store.apply(&Request::List), Outcome::Listed(vec![proposal(1, 3, "cy", "t", 1)]));
}

#[test]
fn restore_takes_rows_in_the_order_of_their_creation() {
    assert!(Store::restore(Vec::new(), 0).is_some());
    assert!(Store::restore(Vec::new(), 9).is_some());
    let store = Store::restore(vec![proposal(1, 5, "ann", "a", 2), proposal(3, 6, "bob", "b", 7)], 4).unwrap();
    assert_eq!(store.len(), 2);
    assert_eq!(store.last_id(), 4);
    assert_eq!(store.snapshot(), vec![proposal(1, 5, "ann", "a", 2), proposal(3, 6, "bob", "b", 7)]);
    assert_eq!(store.list_proposals(), vec![proposal(3, 6, "bob", "b", 7), proposal(1, 5, "ann", "a", 2)]);
}

#[test]
fn restore_refuses_rows_that_no_store_can_hold() {
    assert!(Store::restore(Vec::new(), -1).is_none());
    assert!(Store::restore(vec![proposal(1, 0, "", "a", 0), proposal(3, 0, "", "b", 0)], 2).is_none());
    assert!(Store::restore(vec![proposal(2, 0, "", "a", 0), proposal(1, 0, "", "b", 0)], 5).is_none());
    assert!(Store::restore(vec![proposal(1, 0, "", "a", 0), proposal(1, 0, "", "b", 0)], 5).is_none());
    assert!(Store::restore(vec![proposal(0, 0, "", "a", 0)], 5).is_none());
    assert!(Store::restore(vec![proposal(-2, 0, "", "a", 0)], 5).is_none());
}

#[test]
fn a_restored_store_goes_on_after_its_last_id() {
    let mut store = Store::restore(vec![proposal(2, 0, "", "a", 0)], 6).unwrap();
    assert_eq!(store.create_proposal(1, "n".to_string(), "b".to_string()), Ok(7));
}

#[test]
fn a_full_counter_fails_the_vote() {
    let mut store = Store::restore(vec![proposal(1, 0, "", "a", u32::MAX - 1)], 1).unwrap();
    assert_eq!(store.increment_vote(1), Ok("a".to_string()));
    assert_eq!(store.increment_vote(1), Err(StoreError::Storage));
    assert_eq!(store.get(1).unwrap().votes, u32::MAX);
    assert_eq!(store.apply(&Request::Increment { id: 1 }), Outcome::Failed);
    assert_eq!(store.get(1).unwrap().votes, u32::MAX);
}

#[test]
fn used_up_ids_fail_the_creation() {
    let mut store = Store::restore(Vec::new(), i32::MAX - 1).unwrap();
    assert_eq!(store.create_proposal(1, "n".to_string(), "a".to_string()), Ok(i32::MAX));
    assert_eq!(store.create_proposal(1, "n".to_string(), "b".to_string()), Err(StoreError::Storage));
    let create = Request::Create { author_id: 1, author_name: "n".to_string(), text: "c".to_string() };
    assert_eq!(store.apply(&create), Outcome::Failed);
    assert_eq!(store.len(), 1);
    assert_eq!(store.last_id(), i32::MAX);
}
