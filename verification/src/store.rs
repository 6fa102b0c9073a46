//! Proposals and the store that keeps them.
//!
//! The store offers three operations, each one atomic step: create a proposal,
//! list the proposals by votes, and add one vote to a proposal. [`StoreState`]
//! says what each of them does; [`Store`] keeps the proposals in memory and is
//! proved to do exactly that.

use vstd::prelude::*;

verus! {

/// A submitted proposal.
#[derive(PartialEq, Eq, Debug)]
pub struct Proposal {
    /// Given by the store when the proposal is created; never changes.
    pub id: i32,
    /// Who submitted it.
    pub author_id: i64,
    /// The submitter's display name; empty where none was known.
    pub author_name: String,
    /// The proposal itself.
    pub text: String,
    /// How many votes it has.
    pub votes: u32,
}

/// What a [`Proposal`] stands for in contracts.
pub struct ProposalView {
    pub id: i32,
    pub author_id: i64,
    pub author_name: Seq<char>,
    pub text: Seq<char>,
    pub votes: u32,
}

impl View for Proposal {
    type V = ProposalView;

    open spec fn view(&self) -> ProposalView {
        ProposalView {
            id: self.id,
            author_id: self.author_id,
            author_name: self.author_name@,
            text: self.text@,
            votes: self.votes,
        }
    }
}

impl Clone for Proposal {
    fn clone(&self) -> (r: Self)
        ensures
            r@ == self@,
    {
        Proposal {
            id: self.id,
            author_id: self.author_id,
            author_name: self.author_name.clone(),
            text: self.text.clone(),
            votes: self.votes,
        }
    }
}

/// The views of a sequence of proposals.
pub open spec fn views(rows: Seq<Proposal>) -> Seq<ProposalView> {
    Seq::new(rows.len(), |i: int| rows[i]@)
}

/// The order of a listing: more votes come first; of two proposals with the
/// same votes, the one that was created first (the smaller id) comes first.
pub open spec fn precedes(a: ProposalView, b: ProposalView) -> bool {
    a.votes > b.votes || (a.votes == b.votes && a.id < b.id)
}

/// Whether `out` is in listing order.
pub open spec fn ranked(out: Seq<ProposalView>) -> bool {
    forall|i: int, j: int| 0 <= i < j < out.len() ==> precedes(#[trigger] out[i], #[trigger] out[j])
}

/// Whether `out` lists `rows`: the same proposals, each as often as in `rows`,
/// in listing order.
pub open spec fn is_ranking(rows: Seq<ProposalView>, out: Seq<ProposalView>) -> bool {
    &&& out.to_multiset() == rows.to_multiset()
    &&& ranked(out)
}

/// The listing of `rows`.
///
/// Rows with distinct ids have exactly one listing
/// ([`lemma_ranking_exists`], [`lemma_ranking_unique`]).
pub open spec fn ranking(rows: Seq<ProposalView>) -> Seq<ProposalView> {
    choose|out: Seq<ProposalView>| is_ranking(rows, out)
}

/// Whether no two rows share an id.
pub open spec fn distinct_ids(rows: Seq<ProposalView>) -> bool {
    forall|i: int, j: int|
        0 <= i < rows.len() && 0 <= j < rows.len() && i != j ==> (#[trigger] rows[i]).id != (
        #[trigger] rows[j]).id
}

/// Where a proposal goes into a listing: behind every entry that precedes it.
pub open spec fn insertion_point(out: Seq<ProposalView>, p: ProposalView) -> int
    decreases out.len(),
{
    if out.len() == 0 || !precedes(p, out.last()) {
        out.len() as int
    } else {
        insertion_point(out.drop_last(), p)
    }
}

/// The insertion point splits a listing: what stands before it precedes the
/// new proposal, and the new proposal precedes what stands behind it.
pub proof fn lemma_insertion_point(out: Seq<ProposalView>, p: ProposalView)
    requires
        ranked(out),
        forall|i: int| 0 <= i < out.len() ==> (#[trigger] out[i]).id != p.id,
    ensures
        0 <= insertion_point(out, p) <= out.len(),
        forall|i: int| 0 <= i < insertion_point(out, p) ==> precedes(#[trigger] out[i], p),
        forall|i: int| insertion_point(out, p) <= i < out.len() ==> precedes(p, #[trigger] out[i]),
    decreases out.len(),
{
    if out.len() == 0 {
    } else if !precedes(p, out.last()) {
        let last = out.last();
        assert(last.id != p.id);
        assert(precedes(last, p));
        assert forall|i: int| 0 <= i < out.len() implies precedes(#[trigger] out[i], p) by {
            if i < out.len() - 1 {
                assert(precedes(out[i], out[out.len() - 1]));
            }
        }
    } else {
        let front = out.drop_last();
        assert forall|i: int, j: int| 0 <= i < j < front.len() implies precedes(
            #[trigger] front[i],
            #[trigger] front[j],
        ) by {
            assert(precedes(out[i], out[j]));
        }
        assert forall|i: int| 0 <= i < front.len() implies (#[trigger] front[i]).id != p.id by {
            assert(out[i].id != p.id);
        }
        lemma_insertion_point(front, p);
        let k = insertion_point(front, p);
        assert forall|i: int| 0 <= i < k implies precedes(#[trigger] out[i], p) by {
            assert(out[i] == front[i]);
        }
        assert forall|i: int| k <= i < out.len() implies precedes(p, #[trigger] out[i]) by {
            if i < front.len() {
                assert(out[i] == front[i]);
            }
        }
    }
}

/// Putting a proposal into a listing at a place that splits it as the
/// insertion point does gives the listing of the rows with that proposal added.
pub proof fn lemma_insert_ranked(
    rows: Seq<ProposalView>,
    out: Seq<ProposalView>,
    p: ProposalView,
    k: int,
)
    requires
        is_ranking(rows, out),
        0 <= k <= out.len(),
        forall|i: int| 0 <= i < k ==> precedes(#[trigger] out[i], p),
        forall|i: int| k <= i < out.len() ==> precedes(p, #[trigger] out[i]),
    ensures
        is_ranking(rows.push(p), out.insert(k, p)),
{
    let wider = out.insert(k, p);
    vstd::seq_lib::to_multiset_insert(out, k, p);
    vstd::seq_lib::to_multiset_build(rows, p);
    assert forall|i: int, j: int| 0 <= i < j < wider.len() implies precedes(
        #[trigger] wider[i],
        #[trigger] wider[j],
    ) by {
        if j < k {
            assert(wider[i] == out[i] && wider[j] == out[j]);
        } else if j == k {
            assert(wider[i] == out[i]);
        } else if i < k {
            assert(wider[i] == out[i] && wider[j] == out[j - 1]);
            if i < j - 1 {
                assert(precedes(out[i], out[j - 1]));
            }
        } else if i == k {
            assert(wider[j] == out[j - 1]);
        } else {
            assert(wider[i] == out[i - 1] && wider[j] == out[j - 1]);
        }
    }
}

/// Every entry of a listing is one of the rows, and every row is listed.
pub proof fn lemma_ranking_members(rows: Seq<ProposalView>, out: Seq<ProposalView>)
    requires
        out.to_multiset() == rows.to_multiset(),
    ensures
        out.len() == rows.len(),
        forall|p: ProposalView| out.contains(p) <==> rows.contains(p),
{
    vstd::seq_lib::to_multiset_len(out);
    vstd::seq_lib::to_multiset_len(rows);
    assert forall|p: ProposalView| out.contains(p) <==> rows.contains(p) by {
        vstd::seq_lib::to_multiset_contains(out, p);
        vstd::seq_lib::to_multiset_contains(rows, p);
    }
}

/// Two sequences in listing order that hold the same proposals are equal.
pub proof fn lemma_ranked_unique(a: Seq<ProposalView>, b: Seq<ProposalView>)
    requires
        a.to_multiset() == b.to_multiset(),
        ranked(a),
        ranked(b),
    ensures
        a == b,
    decreases a.len(),
{
    lemma_ranking_members(a, b);
    if a.len() > 0 {
        let n = a.len() as int;
        let x = a[n - 1];
        let y = b[n - 1];
        assert(a.contains(x));
        assert(b.contains(y));
        let at_b = choose|i: int| 0 <= i < n && b[i] == x;
        let at_a = choose|i: int| 0 <= i < n && a[i] == y;
        if at_b < n - 1 && at_a < n - 1 {
            assert(precedes(b[at_b], b[n - 1]));
            assert(precedes(a[at_a], a[n - 1]));
        }
        assert(x == y);
        vstd::seq_lib::to_multiset_remove(a, n - 1);
        vstd::seq_lib::to_multiset_remove(b, n - 1);
        assert(a.remove(n - 1) =~= a.drop_last());
        assert(b.remove(n - 1) =~= b.drop_last());
        assert forall|i: int, j: int| 0 <= i < j < n - 1 implies precedes(
            #[trigger] a.drop_last()[i],
            #[trigger] a.drop_last()[j],
        ) by {
            assert(precedes(a[i], a[j]));
        }
        assert forall|i: int, j: int| 0 <= i < j < n - 1 implies precedes(
            #[trigger] b.drop_last()[i],
            #[trigger] b.drop_last()[j],
        ) by {
            assert(precedes(b[i], b[j]));
        }
        lemma_ranked_unique(a.drop_last(), b.drop_last());
        assert(a =~= a.drop_last().push(x));
        assert(b =~= b.drop_last().push(y));
    } else {
        assert(a =~= b);
    }
}

/// Rows have at most one listing.
pub proof fn lemma_ranking_unique(rows: Seq<ProposalView>, out: Seq<ProposalView>)
    requires
        is_ranking(rows, out),
    ensures
        out == ranking(rows),
{
    lemma_ranked_unique(out, ranking(rows));
}

/// Rows with distinct ids have a listing, and `ranking` is that listing.
pub proof fn lemma_ranking_exists(rows: Seq<ProposalView>)
    requires
        distinct_ids(rows),
    ensures
        is_ranking(rows, ranking(rows)),
    decreases rows.len(),
{
    if rows.len() == 0 {
        assert(is_ranking(rows, rows));
    } else {
        let front = rows.drop_last();
        let p = rows.last();
        assert forall|i: int, j: int|
            0 <= i < front.len() && 0 <= j < front.len() && i != j implies (#[trigger] front[i]).id
            != (#[trigger] front[j]).id by {
            assert(rows[i].id != rows[j].id);
        }
        lemma_ranking_exists(front);
        let out = ranking(front);
        lemma_ranking_members(front, out);
        assert forall|i: int| 0 <= i < out.len() implies (#[trigger] out[i]).id != p.id by {
            assert(out.contains(out[i]));
            assert(front.contains(out[i]));
            let m = choose|m: int| 0 <= m < front.len() && front[m] == out[i];
            assert(rows[m].id != rows[rows.len() - 1].id);
        }
        lemma_insertion_point(out, p);
        lemma_insert_ranked(front, out, p, insertion_point(out, p));
        assert(front.push(p) =~= rows);
        assert(is_ranking(rows, out.insert(insertion_point(out, p), p)));
    }
}

/// Why a store operation did not do its work.
#[derive(Clone, Copy, PartialEq, Eq, Structural, Debug)]
pub enum StoreError {
    /// No proposal has the id that was asked for.
    NotFound,
    /// The store could not carry the operation out.
    Storage,
}

/// The state of a store: its rows in the order of their creation, and the
/// last id that it has given out.
pub struct StoreState {
    pub rows: Seq<ProposalView>,
    pub last_id: i32,
}

impl StoreState {
    /// The store without proposals.
    pub open spec fn empty() -> StoreState {
        StoreState { rows: Seq::empty(), last_id: 0 }
    }

    /// What holds of every store: ids are positive, were given out in
    /// rising order, and none is beyond the last one given out.
    pub open spec fn valid(self) -> bool {
        &&& 0 <= self.last_id
        &&& forall|i: int|
            0 <= i < self.rows.len() ==> 1 <= (#[trigger] self.rows[i]).id <= self.last_id
        &&& forall|i: int, j: int|
            0 <= i < j < self.rows.len() ==> (#[trigger] self.rows[i]).id < (
            #[trigger] self.rows[j]).id
    }

    /// Whether a proposal has this id.
    pub open spec fn has(self, id: i32) -> bool {
        exists|i: int| 0 <= i < self.rows.len() && (#[trigger] self.rows[i]).id == id
    }

    /// The place of the proposal with this id among the rows.
    pub open spec fn index_of(self, id: i32) -> int
        recommends
            self.has(id),
    {
        choose|i: int| 0 <= i < self.rows.len() && (#[trigger] self.rows[i]).id == id
    }

    /// The proposal with this id.
    pub open spec fn row(self, id: i32) -> ProposalView
        recommends
            self.has(id),
    {
        self.rows[self.index_of(id)]
    }

    /// Whether a proposal can be created: the ids are not used up.
    pub open spec fn can_create(self) -> bool {
        self.last_id < i32::MAX
    }

    /// The proposal that a creation adds: the next id, no votes.
    pub open spec fn fresh(self, author_id: i64, author_name: Seq<char>, text: Seq<char>) -> ProposalView {
        ProposalView { id: (self.last_id + 1) as i32, author_id, author_name, text, votes: 0 }
    }

    /// The store after an attempt to create a proposal: it has one more row,
    /// or is unchanged where the ids are used up.
    pub open spec fn create(self, author_id: i64, author_name: Seq<char>, text: Seq<char>) -> StoreState {
        if self.can_create() {
            StoreState {
                rows: self.rows.push(self.fresh(author_id, author_name, text)),
                last_id: (self.last_id + 1) as i32,
            }
        } else {
            self
        }
    }

    /// What an attempt to create a proposal returns: the new id.
    pub open spec fn create_result(self) -> Result<i32, StoreError> {
        if self.can_create() {
            Ok((self.last_id + 1) as i32)
        } else {
            Err(StoreError::Storage)
        }
    }

    /// Whether a vote for this id can be counted: the proposal exists and
    /// its counter is not at its end.
    pub open spec fn can_vote(self, id: i32) -> bool {
        self.has(id) && self.row(id).votes < u32::MAX
    }

    /// The store after an attempt to vote: the proposal with this id has one
    /// vote more and nothing else differs, or the store is unchanged where the
    /// vote cannot be counted.
    pub open spec fn increment(self, id: i32) -> StoreState {
        if self.can_vote(id) {
            StoreState {
                rows: self.rows.update(
                    self.index_of(id),
                    ProposalView { votes: (self.row(id).votes + 1) as u32, ..self.row(id) },
                ),
                last_id: self.last_id,
            }
        } else {
            self
        }
    }

    /// What an attempt to vote returns: the text of the proposal.
    pub open spec fn increment_result(self, id: i32) -> Result<Seq<char>, StoreError> {
        if !self.has(id) {
            Err(StoreError::NotFound)
        } else if self.row(id).votes == u32::MAX {
            Err(StoreError::Storage)
        } else {
            Ok(self.row(id).text)
        }
    }

    /// The proposals as a listing shows them.
    pub open spec fn list(self) -> Seq<ProposalView> {
        ranking(self.rows)
    }
}

/// In a valid store no two rows share an id, so an id names one row.
pub proof fn lemma_valid_distinct(s: StoreState)
    requires
        s.valid(),
    ensures
        distinct_ids(s.rows),
        forall|i: int| 0 <= i < s.rows.len() ==> s.has(#[trigger] s.rows[i].id) && s.index_of(s.rows[i].id) == i,
{
    assert forall|i: int, j: int|
        0 <= i < s.rows.len() && 0 <= j < s.rows.len() && i != j implies (#[trigger] s.rows[i]).id
        != (#[trigger] s.rows[j]).id by {
        if i < j {
            assert(s.rows[i].id < s.rows[j].id);
        } else {
            assert(s.rows[j].id < s.rows[i].id);
        }
    }
    assert forall|i: int| 0 <= i < s.rows.len() implies s.has(#[trigger] s.rows[i].id)
        && s.index_of(s.rows[i].id) == i by {
        let id = s.rows[i].id;
        assert(s.has(id));
        let k = s.index_of(id);
        if k != i {
            assert(s.rows[k].id != s.rows[i].id);
        }
    }
}

/// A result of text as contracts speak of it.
pub open spec fn text_view(r: Result<String, StoreError>) -> Result<Seq<char>, StoreError> {
    match r {
        Ok(text) => Ok(text@),
        Err(error) => Err(error),
    }
}

/// A store that keeps its proposals in memory.
pub struct Store {
    rows: Vec<Proposal>,
    last_id: i32,
}

impl View for Store {
    type V = StoreState;

    closed spec fn view(&self) -> StoreState {
        StoreState { rows: views(self.rows@), last_id: self.last_id }
    }
}

impl Store {
    /// Holds of every store that exists: its state is valid.
    #[verifier::type_invariant]
    pub open spec fn well_formed(self) -> bool {
        self@.valid()
    }

    /// A store without proposals.
    pub fn new() -> (s: Store)
        ensures
            s@ == StoreState::empty(),
    {
        let s = Store { rows: Vec::new(), last_id: 0 };
        assert(s@.rows =~= Seq::empty());
        s
    }

    /// A store that holds the given rows, as one that was kept before and is
    /// taken up again. The rows must be in the order of their creation:
    /// positive ids in rising order, none beyond `last_id`. Any other rows
    /// make no store.
    pub fn restore(rows: Vec<Proposal>, last_id: i32) -> (r: Option<Store>)
        ensures
            r is Some <==> (StoreState { rows: views(rows@), last_id }).valid(),
            r is Some ==> r->Some_0@ == (StoreState { rows: views(rows@), last_id }),
    {
        let ghost state = StoreState { rows: views(rows@), last_id };
        if last_id < 0 {
            return None;
        }
        let mut i: usize = 0;
        while i < rows.len()
            invariant
                i <= rows.len(),
                0 <= last_id,
                state == (StoreState { rows: views(rows@), last_id }),
                forall|j: int| 0 <= j < i ==> 1 <= (#[trigger] state.rows[j]).id <= last_id,
                forall|j: int, k: int|
                    0 <= j < k < i ==> (#[trigger] state.rows[j]).id < (#[trigger] state.rows[k]).id,
            decreases rows.len() - i,
        {
            let id = rows[i].id;
            assert(state.rows[i as int].id == id);
            if id < 1 || id > last_id {
                return None;
            }
            if i > 0 && rows[i - 1].id >= id {
                assert(state.rows[i - 1].id >= state.rows[i as int].id);
                return None;
            }
            assert forall|j: int, k: int| 0 <= j < k < i + 1 implies (#[trigger] state.rows[j]).id
                < (#[trigger] state.rows[k]).id by {
                if k == i && j < i - 1 {
                    assert(state.rows[j].id < state.rows[i - 1].id);
                }
            }
            i += 1;
        }
        Some(Store { rows, last_id })
    }

    /// Takes the rows out of the store and leaves none behind. A change to
    /// the rows is made on what this returns, which is then put back: the
    /// store is valid at every moment in between.
    fn take_rows(&mut self) -> (rows: Vec<Proposal>)
        ensures
            rows == old(self).rows,
            final(self).rows@ == Seq::<Proposal>::empty(),
            final(self).last_id == old(self).last_id,
    {
        proof {
            use_type_invariant(&*self);
        }
        let mut rows: Vec<Proposal> = Vec::new();
        core::mem::swap(&mut self.rows, &mut rows);
        rows
    }

    /// Creates a proposal without votes and returns its id, the one after
    /// the last id given out. Fails, and changes nothing, where the ids are
    /// used up.
    pub fn create_proposal(&mut self, author_id: i64, author_name: String, text: String) -> (r:
        Result<i32, StoreError>)
        ensures
            final(self)@ == old(self)@.create(author_id, author_name@, text@),
            r == old(self)@.create_result(),
    {
        proof {
            use_type_invariant(&*self);
        }
        if self.last_id == i32::MAX {
            return Err(StoreError::Storage);
        }
        let id: i32 = self.last_id + 1;
        let mut rows = self.take_rows();
        rows.push(Proposal { id, author_id, author_name, text, votes: 0 });
        assert(views(rows@) =~= old(self)@.rows.push(
            old(self)@.fresh(author_id, author_name@, text@),
        ));
        self.last_id = id;
        self.rows = rows;
        Ok(id)
    }

    /// The place of the proposal with this id among the rows, if there is one.
    fn find(&self, id: i32) -> (r: Option<usize>)
        ensures
            r is Some <==> self@.has(id),
            r is Some ==> r->Some_0 == self@.index_of(id) && r->Some_0 < self.rows.len(),
    {
        proof {
            use_type_invariant(self);
        }
        let mut i: usize = 0;
        while i < self.rows.len()
            invariant
                i <= self.rows.len(),
                self@.valid(),
                forall|j: int| 0 <= j < i ==> self.rows@[j].id != id,
            decreases self.rows.len() - i,
        {
            if self.rows[i].id == id {
                proof {
                    lemma_valid_distinct(self@);
                    assert(self@.rows[i as int].id == id);
                }
                return Some(i);
            }
            i += 1;
        }
        assert forall|j: int| 0 <= j < self@.rows.len() implies (#[trigger] self@.rows[j]).id
            != id by {
            assert(self.rows@[j].id != id);
        }
        None
    }

    /// Adds one vote to the proposal with this id and returns its text, in
    /// one step. Fails, and changes nothing, where no proposal has the id or
    /// its counter is at its end.
    pub fn increment_vote(&mut self, id: i32) -> (r: Result<String, StoreError>)
        ensures
            final(self)@ == old(self)@.increment(id),
            text_view(r) == old(self)@.increment_result(id),
    {
        proof {
            use_type_invariant(&*self);
        }
        match self.find(id) {
            None => Err(StoreError::NotFound),
            Some(i) => {
                if self.rows[i].votes == u32::MAX {
                    return Err(StoreError::Storage);
                }
                let text = self.rows[i].text.clone();
                let mut rows = self.take_rows();
                rows[i].votes = rows[i].votes + 1;
                assert(views(rows@) =~= old(self)@.increment(id).rows);
                self.rows = rows;
                Ok(text)
            },
        }
    }

    /// Lists the proposals: most votes first, and of two with the same votes
    /// the one created first. The list is a copy; later votes do not touch it.
    pub fn list_proposals(&self) -> (out: Vec<Proposal>)
        ensures
            views(out@) == self@.list(),
            is_ranking(self@.rows, views(out@)),
    {
        proof {
            use_type_invariant(self);
        }
        let mut out: Vec<Proposal> = Vec::new();
        let mut i: usize = 0;
        assert(self@.rows.take(0) =~= views(out@));
        while i < self.rows.len()
            invariant
                i <= self.rows.len(),
                self@.valid(),
                self@.rows == views(self.rows@),
                is_ranking(self@.rows.take(i as int), views(out@)),
                forall|j: int, m: int|
                    0 <= j < out.len() && i <= m < self.rows.len() ==> (#[trigger] views(
                        out@,
                    )[j]).id < (#[trigger] self@.rows[m]).id,
            decreases self.rows.len() - i,
        {
            let p = self.rows[i].clone();
            let mut k: usize = out.len();
            while k > 0 && out[k - 1].votes < p.votes
                invariant
                    k <= out.len(),
                    forall|j: int| k <= j < out.len() ==> (#[trigger] views(out@)[j]).votes < p.votes,
                decreases k,
            {
                k -= 1;
            }
            let ghost before = views(out@);
            proof {
                assert(p@ == self@.rows[i as int]);
                assert forall|j: int| 0 <= j < k implies precedes(#[trigger] before[j], p@) by {
                    assert(before[j].id < self@.rows[i as int].id);
                    assert(before[k - 1].votes >= p.votes);
                    if j < k - 1 {
                        assert(precedes(before[j], before[k - 1]));
                    }
                }
                lemma_insert_ranked(self@.rows.take(i as int), before, p@, k as int);
                assert(self@.rows.take(i as int).push(p@) =~= self@.rows.take(i + 1));
            }
            out.insert(k, p);
            assert(views(out@) =~= before.insert(k as int, self@.rows[i as int]));
            assert forall|j: int, m: int|
                0 <= j < out.len() && i + 1 <= m < self.rows.len() implies (#[trigger] views(
                out@,
            )[j]).id < (#[trigger] self@.rows[m]).id by {
                if j < k {
                    assert(views(out@)[j] == before[j]);
                } else if j == k {
                    assert(self@.rows[i as int].id < self@.rows[m].id);
                } else {
                    assert(views(out@)[j] == before[j - 1]);
                }
            }
            i += 1;
        }
        proof {
            assert(self@.rows.take(i as int) =~= self@.rows);
            lemma_ranking_unique(self@.rows, views(out@));
        }
        out
    }

    /// How many proposals the store holds.
    pub fn len(&self) -> (n: usize)
        ensures
            n == self@.rows.len(),
    {
        self.rows.len()
    }

    /// The last id that the store has given out; 0 before the first.
    pub fn last_id(&self) -> (id: i32)
        ensures
            id == self@.last_id,
    {
        self.last_id
    }

    /// A copy of the proposal with this id, if there is one.
    pub fn get(&self, id: i32) -> (r: Option<Proposal>)
        ensures
            r is Some <==> self@.has(id),
            r is Some ==> r->Some_0@ == self@.row(id),
    {
        match self.find(id) {
            Some(i) => Some(self.rows[i].clone()),
            None => None,
        }
    }

    /// A copy of all proposals in the order of their creation.
    pub fn snapshot(&self) -> (out: Vec<Proposal>)
        ensures
            views(out@) == self@.rows,
    {
        let mut out: Vec<Proposal> = Vec::new();
        let mut i: usize = 0;
        assert(views(out@) =~= self@.rows.take(0));
        while i < self.rows.len()
            invariant
                i <= self.rows.len(),
                self@.rows == views(self.rows@),
                views(out@) == self@.rows.take(i as int),
            decreases self.rows.len() - i,
        {
            let ghost before = views(out@);
            out.push(self.rows[i].clone());
            assert(views(out@) =~= before.push(self@.rows[i as int]));
            assert(views(out@) =~= self@.rows.take(i + 1));
            i += 1;
        }
        assert(self@.rows.take(i as int) =~= self@.rows);
        out
    }
}

} // verus!
