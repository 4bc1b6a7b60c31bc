//! Values exchanged with the collaborators of a turn: review decisions,
//! answers to questions, dynamic tool results and deferred input items.
use vstd::prelude::*;
use crate::keyed_map::{Duplicate, KeyedMap};

verus! {

#[derive(Clone, Copy, Debug, PartialEq, Eq, Structural)]
pub enum ReviewDecision {
    Approved,
    ApprovedForSession,
    Denied,
    Abort,
}

#[derive(Clone, Debug, PartialEq, Eq)]
pub struct DynamicToolResponse {
    pub output: String,
    pub success: bool,
}

#[derive(Clone, Debug, PartialEq, Eq)]
pub enum ResponseInputItem {
    Message { role: String, content: String },
    FunctionCallOutput { call_id: String, output: String },
}

/// The answers given to one question.
#[derive(Clone, Debug, PartialEq, Eq)]
pub struct RequestUserInputAnswer {
    pub answers: Vec<String>,
}

impl View for RequestUserInputAnswer {
    type V = Seq<Seq<char>>;

    open spec fn view(&self) -> Seq<Seq<char>> {
        self.answers@.map_values(|s: String| s@)
    }
}

impl Duplicate for RequestUserInputAnswer {
    fn duplicate(&self) -> (r: Self) {
        let mut answers: Vec<String> = Vec::new();
        let mut i: usize = 0;
        while i < self.answers.len()
            invariant
                i <= self.answers@.len(),
                answers@.len() == i,
                forall|j: int| 0 <= j < i ==> answers@[j]@ == self.answers@[j]@,
            decreases self.answers@.len() - i,
        {
            answers.push(self.answers[i].clone());
            i = i + 1;
        }
        let r = RequestUserInputAnswer { answers };
        assert(r@ =~= self@);
        r
    }
}

/// Answers keyed by question id.
pub struct RequestUserInputResponse {
    pub answers: KeyedMap<RequestUserInputAnswer>,
}

/// What the answers of a response say, question by question.
pub open spec fn answer_views(m: Map<Seq<char>, RequestUserInputAnswer>) -> Map<
    Seq<char>,
    Seq<Seq<char>>,
> {
    m.map_values(|a: RequestUserInputAnswer| a@)
}

impl RequestUserInputResponse {
    pub fn new() -> (r: Self)
        ensures
            r.answers.wf(),
            r.answers@ == Map::<Seq<char>, RequestUserInputAnswer>::empty(),
    {
        RequestUserInputResponse { answers: KeyedMap::new() }
    }
}

} // verus!
