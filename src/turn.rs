//! Mutable state of one turn: the ledger of pending interactions (approvals,
//! multi-question exchanges, dynamic tool calls) and the queue of deferred
//! input items.
use vstd::prelude::*;
use tokio::sync::oneshot::Sender;
use crate::keyed_map::KeyedMap;
use crate::protocol::{
    answer_views, DynamicToolResponse, RequestUserInputAnswer, RequestUserInputResponse,
    ResponseInputItem, ReviewDecision,
};

verus! {

#[verifier::external_type_specification]
#[verifier::external_body]
#[verifier::reject_recursive_types(T)]
pub struct ExOneshotSender<T>(tokio::sync::oneshot::Sender<T>);

/// The set of question ids that a list of ids stands for.
pub open spec fn id_set(ids: Seq<String>) -> Set<Seq<char>> {
    ids.map_values(|s: String| s@).to_set()
}

/// Answers merged in: later answers replace earlier ones for the same question.
pub open spec fn merge_answers(
    answers: Map<Seq<char>, RequestUserInputAnswer>,
    update: Map<Seq<char>, RequestUserInputAnswer>,
) -> Map<Seq<char>, RequestUserInputAnswer> {
    answers.union_prefer_right(update)
}

/// An exchange is complete once every one of its questions has an answer.
pub open spec fn answers_cover(
    questions: Set<Seq<char>>,
    answers: Map<Seq<char>, RequestUserInputAnswer>,
) -> bool {
    questions.subset_of(answers.dom())
}

/// One multi-question exchange with a user.
pub struct PendingUserInput {
    call_id: String,
    question_ids: Vec<String>,
    answers: KeyedMap<RequestUserInputAnswer>,
    tx: Sender<RequestUserInputResponse>,
}

/// The outcome of delivering answers to a pending exchange.
pub struct PendingUserInputUpdate {
    pub call_id: String,
    pub merged: RequestUserInputResponse,
    pub is_complete: bool,
    pub tx: Option<Sender<RequestUserInputResponse>>,
}

impl PendingUserInput {
    pub closed spec fn wf(&self) -> bool {
        self.answers.wf()
    }

    pub closed spec fn call_id_view(&self) -> Seq<char> {
        self.call_id@
    }

    pub closed spec fn questions(&self) -> Set<Seq<char>> {
        id_set(self.question_ids@)
    }

    pub closed spec fn answers_view(&self) -> Map<Seq<char>, RequestUserInputAnswer> {
        self.answers@
    }

    pub closed spec fn sender(&self) -> Sender<RequestUserInputResponse> {
        self.tx
    }

    pub fn new(call_id: String, question_ids: Vec<String>, tx: Sender<RequestUserInputResponse>) -> (r:
        Self)
        ensures
            r.wf(),
            r.call_id_view() == call_id@,
            r.questions() == id_set(question_ids@),
            r.answers_view() == Map::<Seq<char>, RequestUserInputAnswer>::empty(),
            r.sender() == tx,
    {
        PendingUserInput { call_id, question_ids, answers: KeyedMap::new(), tx }
    }

    /// Merges the answers of `update` into those gathered so far and returns
    /// a copy of the result.
    pub fn apply_update(&mut self, update: RequestUserInputResponse) -> (r: RequestUserInputResponse)
        requires
            old(self).wf(),
            update.answers.wf(),
        ensures
            final(self).wf(),
            final(self).answers_view() == merge_answers(
                old(self).answers_view(),
                update.answers@,
            ),
            final(self).call_id_view() == old(self).call_id_view(),
            final(self).questions() == old(self).questions(),
            final(self).sender() == old(self).sender(),
            r.answers.wf(),
            answer_views(r.answers@) == answer_views(final(self).answers_view()),
    {
        let RequestUserInputResponse { answers } = update;
        self.answers.extend(answers);
        RequestUserInputResponse { answers: self.answers.duplicate() }
    }

    /// Whether every question of the exchange has an answer in `response`.
    pub fn is_complete(&self, response: &RequestUserInputResponse) -> (r: bool)
        requires
            response.answers.wf(),
        ensures
            r == self.questions().subset_of(response.answers@.dom()),
    {
        let mut i: usize = 0;
        while i < self.question_ids.len()
            invariant
                response.answers.wf(),
                i <= self.question_ids@.len(),
                forall|j: int|
                    0 <= j < i ==> response.answers@.contains_key(#[trigger] self.question_ids@[j]@),
            decreases self.question_ids@.len() - i,
        {
            if !response.answers.contains_key(self.question_ids[i].as_str()) {
                proof {
                    let q = self.question_ids@[i as int]@;
                    assert(self.question_ids@.map_values(|s: String| s@)[i as int] == q);
                    assert(self.questions().contains(q));
                }
                return false;
            }
            i = i + 1;
        }
        proof {
            assert forall|q: Seq<char>| self.questions().contains(q) implies response.answers@.dom().contains(q) by {
                let ids = self.question_ids@.map_values(|s: String| s@);
                let j = choose|j: int| 0 <= j < ids.len() && ids[j] == q;
                assert(ids[j] == self.question_ids@[j]@);
            }
        }
        true
    }
}

/// Mutable state of a single turn.
pub struct TurnState {
    pending_approvals: KeyedMap<Sender<ReviewDecision>>,
    pending_user_input: KeyedMap<PendingUserInput>,
    pending_dynamic_tools: KeyedMap<Sender<DynamicToolResponse>>,
    pending_input: Vec<ResponseInputItem>,
}

impl TurnState {
    pub closed spec fn wf(&self) -> bool {
        &&& self.pending_approvals.wf()
        &&& self.pending_user_input.wf()
        &&& self.pending_dynamic_tools.wf()
        &&& forall|k: Seq<char>| #[trigger]
            self.pending_user_input@.contains_key(k) ==> self.pending_user_input@[k].wf()
    }

    pub closed spec fn approvals(&self) -> Map<Seq<char>, Sender<ReviewDecision>> {
        self.pending_approvals@
    }

    pub closed spec fn user_inputs(&self) -> Map<Seq<char>, PendingUserInput> {
        self.pending_user_input@
    }

    pub closed spec fn dynamic_tools(&self) -> Map<Seq<char>, Sender<DynamicToolResponse>> {
        self.pending_dynamic_tools@
    }

    pub closed spec fn pending_input_view(&self) -> Seq<ResponseInputItem> {
        self.pending_input@
    }

    /// Nothing is pending: no approval, exchange, dynamic tool call or input item.
    pub open spec fn is_cleared(&self) -> bool {
        &&& self.approvals() == Map::<Seq<char>, Sender<ReviewDecision>>::empty()
        &&& self.user_inputs() == Map::<Seq<char>, PendingUserInput>::empty()
        &&& self.dynamic_tools() == Map::<Seq<char>, Sender<DynamicToolResponse>>::empty()
        &&& self.pending_input_view() == Seq::<ResponseInputItem>::empty()
    }

    pub fn new() -> (r: Self)
        ensures
            r.wf(),
            r.is_cleared(),
    {
        let r = TurnState {
            pending_approvals: KeyedMap::new(),
            pending_user_input: KeyedMap::new(),
            pending_dynamic_tools: KeyedMap::new(),
            pending_input: Vec::new(),
        };
        assert(r.pending_input@ =~= Seq::<ResponseInputItem>::empty());
        r
    }

    /// Registers an approval under `key`; a sender already there is handed back.
    pub fn insert_pending_approval(&mut self, key: String, tx: Sender<ReviewDecision>) -> (r: Option<
        Sender<ReviewDecision>,
    >)
        requires
            old(self).wf(),
        ensures
            final(self).wf(),
            final(self).approvals() == old(self).approvals().insert(key@, tx),
            r == (if old(self).approvals().contains_key(key@) {
                Some(old(self).approvals()[key@])
            } else {
                None
            }),
            final(self).user_inputs() == old(self).user_inputs(),
            final(self).dynamic_tools() == old(self).dynamic_tools(),
            final(self).pending_input_view() == old(self).pending_input_view(),
    {
        self.pending_approvals.insert(key, tx)
    }

    /// Removes the approval under `key`, if any, and hands back its sender.
    pub fn remove_pending_approval(&mut self, key: &str) -> (r: Option<Sender<ReviewDecision>>)
        requires
            old(self).wf(),
        ensures
            final(self).wf(),
            final(self).approvals() == old(self).approvals().remove(key@),
            r == (if old(self).approvals().contains_key(key@) {
                Some(old(self).approvals()[key@])
            } else {
                None
            }),
            final(self).user_inputs() == old(self).user_inputs(),
            final(self).dynamic_tools() == old(self).dynamic_tools(),
            final(self).pending_input_view() == old(self).pending_input_view(),
    {
        self.pending_approvals.remove(key)
    }

    /// Drops every pending approval, exchange, dynamic tool call and input
    /// item; the dropped senders signal cancellation to their receivers.
    pub fn clear_pending(&mut self)
        requires
            old(self).wf(),
        ensures
            final(self).wf(),
            final(self).is_cleared(),
    {
        self.pending_approvals.clear();
        self.pending_user_input.clear();
        self.pending_dynamic_tools.clear();
        self.pending_input.clear();
        assert(self.pending_input@ =~= Seq::<ResponseInputItem>::empty());
    }

    /// Registers an exchange under `key`; an exchange already there is handed back.
    pub fn insert_pending_user_input(&mut self, key: String, pending: PendingUserInput) -> (r: Option<
        PendingUserInput,
    >)
        requires
            old(self).wf(),
            pending.wf(),
        ensures
            final(self).wf(),
            final(self).user_inputs() == old(self).user_inputs().insert(key@, pending),
            r == (if old(self).user_inputs().contains_key(key@) {
                Some(old(self).user_inputs()[key@])
            } else {
                None
            }),
            final(self).approvals() == old(self).approvals(),
            final(self).dynamic_tools() == old(self).dynamic_tools(),
            final(self).pending_input_view() == old(self).pending_input_view(),
    {
        self.pending_user_input.insert(key, pending)
    }

    /// Delivers answers to the exchange under `key`. Unknown keys are a
    /// no-op. An exchange whose questions are all answered leaves the ledger
    /// and its sender is handed back; otherwise it stays with the merged answers.
    pub fn update_pending_user_input(&mut self, key: &str, update: RequestUserInputResponse) -> (r:
        Option<PendingUserInputUpdate>)
        requires
            old(self).wf(),
            update.answers.wf(),
        ensures
            final(self).wf(),
            final(self).approvals() == old(self).approvals(),
            final(self).dynamic_tools() == old(self).dynamic_tools(),
            final(self).pending_input_view() == old(self).pending_input_view(),
            !old(self).user_inputs().contains_key(key@) ==> r is None && final(self).user_inputs()
                == old(self).user_inputs(),
            old(self).user_inputs().contains_key(key@) ==> ({
                let p = old(self).user_inputs()[key@];
                let merged = merge_answers(p.answers_view(), update.answers@);
                let complete = answers_cover(p.questions(), merged);
                &&& r matches Some(u)
                &&& u.call_id@ == p.call_id_view()
                &&& u.merged.answers.wf()
                &&& answer_views(u.merged.answers@) == answer_views(merged)
                &&& u.is_complete == complete
                &&& complete ==> u.tx == Some(p.sender()) && final(self).user_inputs() == old(
                    self,
                ).user_inputs().remove(key@)
                &&& !complete ==> u.tx is None && final(self).user_inputs().remove(key@) == old(
                    self,
                ).user_inputs().remove(key@) && final(self).user_inputs().contains_key(key@) && ({
                    let q = final(self).user_inputs()[key@];
                    &&& q.answers_view() == merged
                    &&& q.call_id_view() == p.call_id_view()
                    &&& q.questions() == p.questions()
                    &&& q.sender() == p.sender()
                })
            }),
    {
        let ghost before = self.pending_user_input@;
        let mut pending = match self.pending_user_input.remove(key) {
            Some(p) => p,
            None => {
                assert(self.pending_user_input@ =~= before);
                return None;
            },
        };
        assert(pending.wf());
        let merged = pending.apply_update(update);
        let is_complete = pending.is_complete(&merged);
        let call_id = pending.call_id.clone();
        proof {
            assert(merged.answers@.dom() =~= pending.answers@.dom()) by {
                assert(answer_views(merged.answers@).dom() == merged.answers@.dom());
                assert(answer_views(pending.answers@).dom() == pending.answers@.dom());
            }
        }
        if !is_complete {
            let ghost removed = self.pending_user_input@;
            let ghost kept = pending;
            self.pending_user_input.insert(key.to_owned(), pending);
            proof {
                assert(self.pending_user_input@.remove(key@) =~= before.remove(key@));
                assert forall|k: Seq<char>| #[trigger]
                    self.pending_user_input@.contains_key(k) implies self.pending_user_input@[k].wf() by {
                    if k != key@ {
                        assert(removed.contains_key(k));
                    }
                }
            }
            return Some(PendingUserInputUpdate { call_id, merged, is_complete, tx: None });
        }
        Some(PendingUserInputUpdate { call_id, merged, is_complete, tx: Some(pending.tx) })
    }

    /// Removes the exchange under `key` without answering it and hands back
    /// the id of the call that opened it.
    pub fn cancel_pending_user_input(&mut self, key: &str) -> (r: Option<String>)
        requires
            old(self).wf(),
        ensures
            final(self).wf(),
            final(self).user_inputs() == old(self).user_inputs().remove(key@),
            r is None <==> !old(self).user_inputs().contains_key(key@),
            r matches Some(c) ==> c@ == old(self).user_inputs()[key@].call_id_view(),
            final(self).approvals() == old(self).approvals(),
            final(self).dynamic_tools() == old(self).dynamic_tools(),
            final(self).pending_input_view() == old(self).pending_input_view(),
    {
        match self.pending_user_input.remove(key) {
            Some(pending) => Some(pending.call_id),
            None => None,
        }
    }

    /// Registers a dynamic tool call under `key`; a sender already there is handed back.
    pub fn insert_pending_dynamic_tool(&mut self, key: String, tx: Sender<DynamicToolResponse>) -> (r:
        Option<Sender<DynamicToolResponse>>)
        requires
            old(self).wf(),
        ensures
            final(self).wf(),
            final(self).dynamic_tools() == old(self).dynamic_tools().insert(key@, tx),
            r == (if old(self).dynamic_tools().contains_key(key@) {
                Some(old(self).dynamic_tools()[key@])
            } else {
                None
            }),
            final(self).approvals() == old(self).approvals(),
            final(self).user_inputs() == old(self).user_inputs(),
            final(self).pending_input_view() == old(self).pending_input_view(),
    {
        self.pending_dynamic_tools.insert(key, tx)
    }

    /// Removes the dynamic tool call under `key`, if any, and hands back its sender.
    pub fn remove_pending_dynamic_tool(&mut self, key: &str) -> (r: Option<Sender<DynamicToolResponse>>)
        requires
            old(self).wf(),
        ensures
            final(self).wf(),
            final(self).dynamic_tools() == old(self).dynamic_tools().remove(key@),
            r == (if old(self).dynamic_tools().contains_key(key@) {
                Some(old(self).dynamic_tools()[key@])
            } else {
                None
            }),
            final(self).approvals() == old(self).approvals(),
            final(self).user_inputs() == old(self).user_inputs(),
            final(self).pending_input_view() == old(self).pending_input_view(),
    {
        self.pending_dynamic_tools.remove(key)
    }

    /// Queues an input item for the next model request.
    pub fn push_pending_input(&mut self, input: ResponseInputItem)
        requires
            old(self).wf(),
        ensures
            final(self).wf(),
            final(self).pending_input_view() == old(self).pending_input_view().push(input),
            final(self).approvals() == old(self).approvals(),
            final(self).user_inputs() == old(self).user_inputs(),
            final(self).dynamic_tools() == old(self).dynamic_tools(),
    {
        self.pending_input.push(input);
    }

    /// Takes every queued input item, in order, leaving the queue empty.
    pub fn take_pending_input(&mut self) -> (r: Vec<ResponseInputItem>)
        requires
            old(self).wf(),
        ensures
            final(self).wf(),
            r@ == old(self).pending_input_view(),
            final(self).pending_input_view() == Seq::<ResponseInputItem>::empty(),
            final(self).approvals() == old(self).approvals(),
            final(self).user_inputs() == old(self).user_inputs(),
            final(self).dynamic_tools() == old(self).dynamic_tools(),
    {
        if self.pending_input.len() == 0 {
            let r = Vec::with_capacity(0);
            assert(r@ =~= self.pending_input@);
            r
        } else {
            let mut ret = Vec::new();
            std::mem::swap(&mut ret, &mut self.pending_input);
            assert(self.pending_input@ =~= Seq::<ResponseInputItem>::empty());
            ret
        }
    }

    pub fn has_pending_input(&self) -> (r: bool)
        ensures
            r == (self.pending_input_view().len() > 0),
    {
        self.pending_input.len() > 0
    }
}

/// One registration or removal of a pending approval.
pub enum ApprovalOp {
    Insert { key: Seq<char>, tx: Sender<ReviewDecision> },
    Remove { key: Seq<char> },
}

pub open spec fn approval_op_key(op: ApprovalOp) -> Seq<char> {
    match op {
        ApprovalOp::Insert { key, .. } => key,
        ApprovalOp::Remove { key } => key,
    }
}

pub open spec fn approval_op_inserts(op: ApprovalOp) -> bool {
    match op {
        ApprovalOp::Insert { .. } => true,
        ApprovalOp::Remove { .. } => false,
    }
}

/// The approvals after `ops`, each applied as `insert_pending_approval` and
/// `remove_pending_approval` state it.
pub open spec fn approvals_after(
    m: Map<Seq<char>, Sender<ReviewDecision>>,
    ops: Seq<ApprovalOp>,
) -> Map<Seq<char>, Sender<ReviewDecision>>
    decreases ops.len(),
{
    if ops.len() == 0 {
        m
    } else {
        let prev = approvals_after(m, ops.drop_last());
        match ops.last() {
            ApprovalOp::Insert { key, tx } => prev.insert(key, tx),
            ApprovalOp::Remove { key } => prev.remove(key),
        }
    }
}

/// The keys registered by some operation of `ops` that no later operation
/// removes.
pub open spec fn kept_keys(ops: Seq<ApprovalOp>) -> Set<Seq<char>> {
    Set::new(
        |k: Seq<char>|
            exists|i: int|
                0 <= i < ops.len() && approval_op_inserts(ops[i]) && approval_op_key(ops[i]) == k
                    && forall|j: int|
                    i < j < ops.len() ==> !(!approval_op_inserts(#[trigger] ops[j])
                        && approval_op_key(ops[j]) == k),
    )
}

/// Starting from an empty ledger, any run of registrations and removals
/// leaves exactly the keys that were registered and not removed afterwards.
pub proof fn lemma_approval_keys_after_ops(ops: Seq<ApprovalOp>)
    ensures
        approvals_after(Map::empty(), ops).dom() == kept_keys(ops),
    decreases ops.len(),
{
    if ops.len() == 0 {
        assert(approvals_after(Map::empty(), ops).dom() =~= kept_keys(ops));
    } else {
        let pre = ops.drop_last();
        let n = ops.len() - 1;
        lemma_approval_keys_after_ops(pre);
        let k = approval_op_key(ops.last());
        assert forall|q: Seq<char>| q != k implies #[trigger] kept_keys(ops).contains(q)
            == kept_keys(pre).contains(q) by {
            if kept_keys(ops).contains(q) {
                let i = choose|i: int|
                    0 <= i < ops.len() && approval_op_inserts(ops[i]) && approval_op_key(ops[i])
                        == q && forall|j: int|
                        i < j < ops.len() ==> !(!approval_op_inserts(#[trigger] ops[j])
                            && approval_op_key(ops[j]) == q);
                assert(i < n);
                assert(pre[i] == ops[i]);
                assert forall|j: int| i < j < pre.len() implies !(!approval_op_inserts(
                    #[trigger] pre[j],
                ) && approval_op_key(pre[j]) == q) by {
                    assert(pre[j] == ops[j]);
                }
            }
            if kept_keys(pre).contains(q) {
                let i = choose|i: int|
                    0 <= i < pre.len() && approval_op_inserts(pre[i]) && approval_op_key(pre[i])
                        == q && forall|j: int|
                        i < j < pre.len() ==> !(!approval_op_inserts(#[trigger] pre[j])
                            && approval_op_key(pre[j]) == q);
                assert(pre[i] == ops[i]);
                assert forall|j: int| i < j < ops.len() implies !(!approval_op_inserts(
                    #[trigger] ops[j],
                ) && approval_op_key(ops[j]) == q) by {
                    if j < n {
                        assert(pre[j] == ops[j]);
                    }
                }
            }
        }
        if approval_op_inserts(ops.last()) {
            assert(kept_keys(ops).contains(k)) by {
                assert(approval_op_inserts(ops[n]) && approval_op_key(ops[n]) == k);
            }
        } else {
            assert(!kept_keys(ops).contains(k)) by {
                if kept_keys(ops).contains(k) {
                    let i = choose|i: int|
                        0 <= i < ops.len() && approval_op_inserts(ops[i]) && approval_op_key(ops[i])
                            == k && forall|j: int|
                            i < j < ops.len() ==> !(!approval_op_inserts(#[trigger] ops[j])
                                && approval_op_key(ops[j]) == k);
                    assert(i != n);
                    assert(!(!approval_op_inserts(ops[n]) && approval_op_key(ops[n]) == k));
                }
            }
        }
        assert(approvals_after(Map::empty(), ops).dom() =~= kept_keys(ops));
    }
}

/// Delivering an answer for `a` and then one for `b` completes an exchange
/// over the questions `{a, b}` only at the second delivery, with both
/// answers; answering `a` again instead replaces its answer and leaves the
/// exchange incomplete.
pub proof fn lemma_partial_answers_merge(
    a: Seq<char>,
    b: Seq<char>,
    x: RequestUserInputAnswer,
    y: RequestUserInputAnswer,
    z: RequestUserInputAnswer,
)
    requires
        a != b,
    ensures
        !answers_cover(set![a, b], merge_answers(Map::empty(), map![a => x])),
        merge_answers(merge_answers(Map::empty(), map![a => x]), map![b => y]) == map![a => x, b => y],
        answers_cover(
            set![a, b],
            merge_answers(merge_answers(Map::empty(), map![a => x]), map![b => y]),
        ),
        merge_answers(merge_answers(Map::empty(), map![a => x]), map![a => z]) == map![a => z],
        !answers_cover(
            set![a, b],
            merge_answers(merge_answers(Map::empty(), map![a => x]), map![a => z]),
        ),
{
    let first = merge_answers(Map::empty(), map![a => x]);
    assert(first =~= map![a => x]);
    assert(!first.dom().contains(b));
    assert(merge_answers(first, map![b => y]) =~= map![a => x, b => y]);
    assert(merge_answers(first, map![a => z]) =~= map![a => z]);
    assert(!merge_answers(first, map![a => z]).dom().contains(b));
}

/// An exchange never completes while one of its questions is left
/// unanswered by every delivery.
pub proof fn lemma_unanswered_question_blocks_completion(
    questions: Set<Seq<char>>,
    answers: Map<Seq<char>, RequestUserInputAnswer>,
    update: Map<Seq<char>, RequestUserInputAnswer>,
    q: Seq<char>,
)
    requires
        questions.contains(q),
        !answers.contains_key(q),
        !update.contains_key(q),
    ensures
        !merge_answers(answers, update).contains_key(q),
        !answers_cover(questions, merge_answers(answers, update)),
{
}

/// Once the ledger is cleared no exchange is left, so no later delivery of
/// answers reaches one.
pub proof fn lemma_cleared_ledger_answers_nothing(s: TurnState, key: Seq<char>)
    requires
        s.is_cleared(),
    ensures
        !s.user_inputs().contains_key(key),
{
}

} // verus!
