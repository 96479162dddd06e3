//! The language-model abstraction and a deterministic offline model.
use vstd::prelude::*;
use std::collections::HashMap;
use crate::error::Result;
use crate::text::{concat, decimal_digits, decimal_string, owned};
use crate::types::{IntoText, Message, ToolCall, string_keys_hash_consistently};

verus! {

/// One generation step: either a final answer or a tool request.
#[derive(Debug, Clone)]
pub enum ModelOutput {
    /// Final answer (ends the agent loop).
    Text(String),
    /// Request to call a tool.
    ToolCall(ToolCall),
}

/// A large or small language model.
pub trait Model {
    /// Whether the model, from its present state, may give the replies of
    /// `trail` to its conversations, one `generate` call each, in order; any
    /// replies, unless a model says more.
    closed spec fn may_answer(&self, trail: Seq<(Seq<Message>, Result<ModelOutput>)>) -> bool {
        true
    }

    /// Produces one output from the conversation so far. What the model may
    /// answer afterwards, it may answer after this reply from its state before.
    fn generate(&mut self, history: &[Message]) -> (r: Result<ModelOutput>)
        ensures
            final(self).may_answer(Seq::empty()),
            forall|t: Seq<(Seq<Message>, Result<ModelOutput>)>| #[trigger]
                final(self).may_answer(t) ==> old(self).may_answer(seq![(history@, r)] + t),
    ;

    /// The model's name.
    fn name(&self) -> (r: &str);
}

/// A deterministic offline model for simulation and tests: it requests the
/// tools of its plan one after another, then gives its final answer.
pub struct MockModel {
    /// Tool names to request, in order.
    plan: Vec<String>,
    /// The answer once the plan is used up.
    final_answer: String,
    step: usize,
}

/// Whether `args` is exactly the one argument `_seq` = decimal text of `n`.
pub open spec fn seq_argument(args: Map<String, String>, n: nat) -> bool {
    &&& args.len() == 1
    &&& exists|k: String|
        args.contains_key(k) && #[trigger] k@ == "_seq"@ && args[k]@ == decimal_digits(n)
}

/// Whether `r` is the reply of a mock with `plan` and final `answer` that has
/// made `step` requests: the next planned tool (call id `call-<n>`, argument
/// `_seq` = `n`, for the `n`-th request), or the answer once the plan is used
/// up.
pub open spec fn mock_reply(plan: Seq<String>, answer: Seq<char>, step: nat, r: Result<ModelOutput>) -> bool {
    if step < plan.len() {
        r matches Ok(ModelOutput::ToolCall(tc)) && tc.name@ == plan[step as int]@ && tc.id@ == "call-"@
            + decimal_digits(step + 1) && (string_keys_hash_consistently() ==> seq_argument(
            tc.arguments@,
            step + 1,
        ))
    } else {
        r matches Ok(ModelOutput::Text(t)) && t@ == answer
    }
}

/// Whether a mock with `plan` and final `answer` that has made `step`
/// requests gives the replies of `trail`, in order.
pub open spec fn mock_answers(
    plan: Seq<String>,
    answer: Seq<char>,
    step: nat,
    trail: Seq<(Seq<Message>, Result<ModelOutput>)>,
) -> bool
    decreases trail.len(),
{
    if trail.len() == 0 {
        true
    } else {
        &&& mock_reply(plan, answer, step, trail[0].1)
        &&& mock_answers(
            plan,
            answer,
            if step < plan.len() {
                step + 1
            } else {
                step
            },
            trail.drop_first(),
        )
    }
}

/// The requests made by a mock with a plan of `len` steps, `k` replies after
/// it had made `step`.
pub open spec fn mock_step(len: nat, step: nat, k: nat) -> nat {
    if step >= len {
        step
    } else if step + k <= len {
        step + k
    } else {
        len
    }
}

proof fn lemma_mock_answers(
    plan: Seq<String>,
    answer: Seq<char>,
    step: nat,
    trail: Seq<(Seq<Message>, Result<ModelOutput>)>,
)
    requires
        mock_answers(plan, answer, step, trail),
    ensures
        forall|k: int|
            0 <= k < trail.len() ==> mock_reply(
                plan,
                answer,
                mock_step(plan.len(), step, k as nat),
                #[trigger] trail[k].1,
            ),
    decreases trail.len(),
{
    if trail.len() > 0 {
        let next = if step < plan.len() {
            step + 1
        } else {
            step
        };
        let rest = trail.drop_first();
        lemma_mock_answers(plan, answer, next, rest);
        assert forall|k: int| 0 <= k < trail.len() implies mock_reply(
            plan,
            answer,
            mock_step(plan.len(), step, k as nat),
            #[trigger] trail[k].1,
        ) by {
            if k > 0 {
                assert(trail[k] == rest[k - 1]);
                assert(mock_step(plan.len(), next, (k - 1) as nat) == mock_step(
                    plan.len(),
                    step,
                    k as nat,
                ));
            }
        }
    }
}

/// A fresh mock's replies, call after call: the `k`-th call requests the
/// `k`-th planned tool (id `call-<k+1>`), and every call after the plan gives
/// the final answer.
pub proof fn law_mock_follows_plan(
    plan: Seq<String>,
    answer: Seq<char>,
    trail: Seq<(Seq<Message>, Result<ModelOutput>)>,
)
    requires
        mock_answers(plan, answer, 0, trail),
    ensures
        forall|k: int|
            0 <= k < trail.len() ==> mock_reply(
                plan,
                answer,
                if k < plan.len() {
                    k as nat
                } else {
                    plan.len()
                },
                #[trigger] trail[k].1,
            ),
{
    lemma_mock_answers(plan, answer, 0, trail);
    assert forall|k: int| 0 <= k < trail.len() implies mock_reply(
        plan,
        answer,
        if k < plan.len() {
            k as nat
        } else {
            plan.len()
        },
        #[trigger] trail[k].1,
    ) by {
        assert(mock_step(plan.len(), 0, k as nat) == (if k < plan.len() {
            k as nat
        } else {
            plan.len()
        }));
    }
}

impl MockModel {
    pub closed spec fn plan(&self) -> Seq<String> {
        self.plan@
    }

    pub closed spec fn final_answer(&self) -> Seq<char> {
        self.final_answer@
    }

    /// How many plan steps have been requested.
    pub closed spec fn step(&self) -> nat {
        self.step as nat
    }

    pub fn new<S: IntoText>(plan: Vec<String>, final_answer: S) -> (m: Self)
        ensures
            m.plan() == plan@,
            m.final_answer() == final_answer.text_view(),
            m.step() == 0,
    {
        MockModel { plan, final_answer: final_answer.into_text(), step: 0 }
    }
}

impl Model for MockModel {
    /// The planned tools, then the final answer, from the requests made so far.
    open spec fn may_answer(&self, trail: Seq<(Seq<Message>, Result<ModelOutput>)>) -> bool {
        mock_answers(self.plan(), self.final_answer(), self.step(), trail)
    }

    /// Requests the next planned tool (call id `call-<n>`, argument `_seq` = `n`,
    /// for the `n`-th request); once the plan is used up, answers.
    fn generate(&mut self, history: &[Message]) -> (r: Result<ModelOutput>)
        ensures
            old(self).step() < old(self).plan().len() ==> final(self).step() == old(self).step() + 1,
            old(self).step() >= old(self).plan().len() ==> final(self).step() == old(self).step(),
            final(self).plan() == old(self).plan(),
            final(self).final_answer() == old(self).final_answer(),
    {
        let ghost before = *self;
        let r = self.ask(history);
        proof {
            assert forall|t: Seq<(Seq<Message>, Result<ModelOutput>)>| #[trigger]
                self.may_answer(t) implies before.may_answer(seq![(history@, r)] + t) by {
                let u = seq![(history@, r)] + t;
                assert(u.drop_first() =~= t);
                assert(u[0].1 == r);
            }
        }
        r
    }

    fn name(&self) -> (r: &str)
        ensures
            r@ == "mock"@,
    {
        "mock"
    }
}

impl MockModel {
    /// One request: the next planned tool, or the final answer.
    fn ask(&mut self, history: &[Message]) -> (r: Result<ModelOutput>)
        ensures
            mock_reply(old(self).plan(), old(self).final_answer(), old(self).step(), r),
            old(self).step() < old(self).plan().len() ==> final(self).step() == old(self).step() + 1,
            old(self).step() >= old(self).plan().len() ==> final(self).step() == old(self).step(),
            final(self).plan() == old(self).plan(),
            final(self).final_answer() == old(self).final_answer(),
    {
        broadcast use vstd::std_specs::hash::axiom_random_state_builds_valid_hashers;

        if self.step < self.plan.len() {
            let name = self.plan[self.step].clone();
            self.step = self.step + 1;
            let mut arguments: HashMap<String, String> = HashMap::new();
            let key = owned("_seq");
            let ghost k = key;
            arguments.insert(key, decimal_string(self.step));
            proof {
                if string_keys_hash_consistently() {
                    assert(arguments@.dom() =~= set![k]);
                    assert(arguments@.contains_key(k));
                    assert(arguments@.len() == 1);
                    assert(seq_argument(arguments@, self.step as nat));
                }
            }
            let id = concat(owned("call-"), decimal_string(self.step).as_str());
            let tc = ToolCall::new(id, name, arguments);
            assert(tc.id@ == "call-"@ + decimal_digits(self.step as nat));
            assert(string_keys_hash_consistently() ==> seq_argument(tc.arguments@, self.step as nat));
            Ok(ModelOutput::ToolCall(tc))
        } else {
            Ok(ModelOutput::Text(self.final_answer.clone()))
        }
    }
}

} // verus!
