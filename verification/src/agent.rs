//! The agent loop: generate, call a tool, feed its result back, until the
//! model gives a final answer.
use vstd::prelude::*;
use std::collections::HashMap;
use crate::error::{BrainError, Result, error_detail, error_prefix};
use crate::llm::EchoModel;
use crate::model::{Model, ModelOutput};
use crate::text::{concat, decimal_digits, decimal_string, owned};
use crate::tool::{Tool, ToolRegistry, first_named, has_tool};
use crate::types::{IntoText, Message, Role, tool_result_text};

verus! {

/// Default bound on generate/tool rounds per run.
pub const DEFAULT_MAX_ITERS: usize = 16;

/// `Debug` text of a tool call's arguments (`format!("{:?}", ..)`). Nothing is
/// stated of it: a hash map's entries come out in the order its hasher gives.
#[verifier::external_body]
fn debug_arguments(args: &HashMap<String, String>) -> String {
    format!("{:?}", args)
}

/// The assistant's note of a tool call: `tool_call <id> <name>(<arguments>)`.
pub open spec fn call_note(id: Seq<char>, name: Seq<char>, args: Seq<char>) -> Seq<char> {
    "tool_call "@ + id + " "@ + name + "("@ + args + ")"@
}

/// The result recorded for a call of a tool that is not registered.
pub open spec fn unknown_tool_note(name: Seq<char>) -> Seq<char> {
    "ERROR: unknown tool '"@ + name + "'"@
}

/// The detail of the error for running out of rounds.
pub open spec fn exceeded_note(n: nat) -> Seq<char> {
    "exceeded max iterations ("@ + decimal_digits(n) + ")"@
}

/// Whether `text` is what the conversation records of a tool call's result:
/// the tool's own text; `ERROR: ` and the error's display text when the tool
/// failed (the detail of an I/O error comes from the operating system); or the
/// unknown-tool note when no registered tool has the requested name (`None`).
pub open spec fn result_text(result: Option<Result<String>>, name: Seq<char>, text: Seq<char>) -> bool {
    match result {
        None => text == unknown_tool_note(name),
        Some(Ok(s)) => text == s@,
        Some(Err(e)) => if e is Io {
            text.len() >= 17 && text.subrange(0, 17) == "ERROR: io error: "@
        } else {
            text == "ERROR: "@ + error_prefix(e) + error_detail(e)
        },
    }
}

/// How many messages a model output adds to the conversation.
pub open spec fn output_len(out: ModelOutput) -> nat {
    match out {
        ModelOutput::Text(_) => 1,
        ModelOutput::ToolCall(_) => 2,
    }
}

/// Whether a model reply is a tool request.
pub open spec fn is_tool_call(reply: Result<ModelOutput>) -> bool {
    match reply {
        Ok(ModelOutput::ToolCall(_)) => true,
        _ => false,
    }
}

/// How many messages a model reply adds to the conversation (none for an error).
pub open spec fn reply_len(reply: Result<ModelOutput>) -> nat {
    match reply {
        Ok(out) => output_len(out),
        Err(_) => 0,
    }
}

/// Whether `h` records `out` at `at`: a final answer as the assistant's
/// message; a tool call as the assistant's note of it (its arguments written
/// as `args`), then the tool message with the call's `result`.
pub open spec fn records_output(
    h: Seq<Message>,
    at: int,
    out: ModelOutput,
    args: Seq<char>,
    result: Option<Result<String>>,
) -> bool {
    match out {
        ModelOutput::Text(a) => h[at].role == Role::Assistant && h[at].content@ == a@,
        ModelOutput::ToolCall(tc) => {
            &&& h[at].role == Role::Assistant
            &&& h[at].content@ == call_note(tc.id@, tc.name@, args)
            &&& h[at + 1].role == Role::Tool
            &&& exists|t: Seq<char>|
                result_text(result, tc.name@, t) && h[at + 1].content@ == #[trigger] tool_result_text(
                    tc.id@,
                    t,
                )
        },
    }
}

/// Adds one model output to the conversation. A final answer is recorded and
/// returned. A tool call is recorded with `args`, the text of its arguments,
/// and with `result`, what the called tool returned (`None`: no registered
/// tool has that name); then nothing is returned and the loop goes on.
pub fn record_output(
    history: &mut Vec<Message>,
    out: ModelOutput,
    args: &str,
    result: Option<Result<String>>,
) -> (answer: Option<String>)
    ensures
        final(history)@.len() == old(history)@.len() + output_len(out),
        final(history)@.subrange(0, old(history)@.len() as int) == old(history)@,
        records_output(final(history)@, old(history)@.len() as int, out, args@, result),
        answer == (match out {
            ModelOutput::Text(a) => Some(a),
            ModelOutput::ToolCall(_) => None::<String>,
        }),
{
    let ghost before = history@;
    let ghost whole = out;
    match out {
        ModelOutput::Text(answer) => {
            history.push(Message::assistant(answer.clone()));
            assert(history@.subrange(0, before.len() as int) =~= before);
            Some(answer)
        },
        ModelOutput::ToolCall(tc) => {
            let note = concat(owned("tool_call "), tc.id.as_str());
            let note = concat(note, " ");
            let note = concat(note, tc.name.as_str());
            let note = concat(note, "(");
            let note = concat(note, args);
            let note = concat(note, ")");
            proof {
                assert(note@ =~= call_note(tc.id@, tc.name@, args@));
            }
            history.push(Message::assistant(note));
            let text = match result {
                Some(Ok(s)) => s,
                Some(Err(e)) => {
                    let m = e.message();
                    let t = concat(owned("ERROR: "), m.as_str());
                    proof {
                        reveal_strlit("ERROR: ");
                        if e is Io {
                            reveal_strlit("io error: ");
                            reveal_strlit("ERROR: io error: ");
                            assert forall|k: int| 7 <= k < 17 implies t@[k] == m@.subrange(0, 10)[k - 7] by {
                                assert(t@[k] == m@[k - 7]);
                            }
                            assert(t@.subrange(0, 17) =~= "ERROR: io error: "@);
                        } else {
                            assert(t@ =~= "ERROR: "@ + error_prefix(e) + error_detail(e));
                        }
                    }
                    t
                },
                None => {
                    let m = concat(owned("ERROR: unknown tool '"), tc.name.as_str());
                    let m = concat(m, "'");
                    assert(m@ =~= unknown_tool_note(tc.name@));
                    m
                },
            };
            let ghost t = text@;
            assert(result_text(result, tc.name@, t));
            history.push(Message::tool_result(tc.id.as_str(), text));
            proof {
                let h = history@;
                assert(h.subrange(0, before.len() as int) =~= before);
                assert(h[before.len() + 1int].content@ == tool_result_text(tc.id@, t));
                assert(records_output(h, before.len() as int, whole, args@, result));
            }
            None
        },
    }
}

/// One round of a run, as the agent saw it.
pub struct Round {
    /// The conversation handed to the model.
    pub sent: Seq<Message>,
    /// What the model returned.
    pub reply: Result<ModelOutput>,
    /// The text the call's arguments were recorded with.
    pub args: Seq<char>,
    /// What the called tool returned; `None` when no registered tool has the
    /// requested name, and for a reply that is no tool call.
    pub result: Option<Result<String>>,
}

/// Whether round `j` of `rs` is recorded in `h`, whose run began at `start`:
/// the model was handed the conversation as it stood before the round, its
/// output is recorded right after, and a
/// tool of `reg` was run exactly when one with the requested name was
/// registered: the first so named, and what it returned is recorded.
pub open spec fn round_recorded(
    h: Seq<Message>,
    start: int,
    rs: Seq<Round>,
    j: int,
    reg: ToolRegistry,
) -> bool {
    &&& rs[j].sent == h.subrange(0, start + 2 * j)
    &&& rs[j].reply matches Ok(out) ==> records_output(
        h,
        start + 2 * j,
        out,
        rs[j].args,
        rs[j].result,
    )
    &&& rs[j].reply matches Ok(ModelOutput::ToolCall(tc)) ==> (rs[j].result is Some <==> has_tool(
        reg.tool_names(),
        tc.name@,
    ))
    &&& rs[j].reply matches Ok(ModelOutput::ToolCall(tc)) ==> (rs[j].result matches Some(res)
        ==> exists|k: int|
        #[trigger] first_named(reg.tool_names(), tc.name@, k) && reg.tool_may_return(
            k,
            tc.arguments,
            res,
        ))
}

/// Whether `r` is what a run with the rounds `rs` and the bound `max` returns:
/// the model's final answer, or the model's error; when the model asked for
/// tools in all `max` rounds, the exceeded-rounds error.
pub open spec fn run_returns(rs: Seq<Round>, max: nat, r: Result<String>) -> bool {
    if rs.len() > 0 && !is_tool_call(rs.last().reply) {
        match rs.last().reply {
            Ok(ModelOutput::Text(a)) => r == Ok::<String, BrainError>(a),
            Err(e) => r == Err::<String, BrainError>(e),
            _ => false,
        }
    } else {
        &&& rs.len() == max
        &&& r matches Err(BrainError::Agent(m)) && m@ == exceeded_note(max)
    }
}

/// What the model was handed and what it replied, round by round.
pub open spec fn trail_of(rs: Seq<Round>) -> Seq<(Seq<Message>, Result<ModelOutput>)> {
    rs.map_values(|round: Round| (round.sent, round.reply))
}

/// Extending a conversation keeps what it records of the rounds before.
proof fn lemma_round_kept(
    h: Seq<Message>,
    g: Seq<Message>,
    start: int,
    rs: Seq<Round>,
    j: int,
    reg: ToolRegistry,
)
    requires
        0 <= j < rs.len(),
        0 <= start,
        g.len() >= h.len(),
        g.subrange(0, h.len() as int) == h,
        start + 2 * j + reply_len(rs[j].reply) <= h.len(),
        round_recorded(h, start, rs, j, reg),
    ensures
        round_recorded(g, start, rs, j, reg),
{
    let at = start + 2 * j;
    assert(g.subrange(0, at) =~= h.subrange(0, at)) by {
        assert forall|k: int| 0 <= k < at implies g.subrange(0, at)[k] == h.subrange(0, at)[k] by {
            assert(g.subrange(0, h.len() as int)[k] == g[k]);
        }
    }
    if rs[j].reply is Ok {
        let out = rs[j].reply->Ok_0;
        assert(g.subrange(0, h.len() as int)[at] == g[at]);
        assert(g[at] == h[at]);
        if out is ToolCall {
            assert(g.subrange(0, h.len() as int)[at + 1] == g[at + 1]);
            assert(g[at + 1] == h[at + 1]);
        }
    }
}

/// A reusable agent.
pub struct Agent {
    model: Box<dyn Model>,
    registry: ToolRegistry,
    history: Vec<Message>,
    max_iters: usize,
    rounds: Ghost<Seq<Round>>,
}

impl Agent {
    /// The conversation so far.
    pub closed spec fn history_view(&self) -> Seq<Message> {
        self.history@
    }

    /// The bound on rounds per run.
    pub closed spec fn spec_max_iters(&self) -> nat {
        self.max_iters as nat
    }

    /// The registered tools.
    pub closed spec fn spec_registry(&self) -> ToolRegistry {
        self.registry
    }

    /// Whether the model, from its present state, may give the replies of
    /// `trail` (see `Model::may_answer`).
    pub closed spec fn model_may_answer(&self, trail: Seq<(Seq<Message>, Result<ModelOutput>)>) -> bool {
        self.model.may_answer(trail)
    }

    /// The rounds of the latest run.
    pub closed spec fn last_run(&self) -> Seq<Round> {
        self.rounds@
    }

    /// The names of the registered tools.
    pub closed spec fn tools(&self) -> Seq<Seq<char>> {
        self.registry.tool_names()
    }

    /// An agent over `model`, whose conversation starts with `system_prompt`.
    pub fn new<S: IntoText>(model: Box<dyn Model>, system_prompt: S) -> (a: Self)
        ensures
            a.history_view().len() == 1,
            a.history_view()[0].role == Role::System,
            a.history_view()[0].content@ == system_prompt.text_view(),
            a.spec_max_iters() == DEFAULT_MAX_ITERS,
            a.tools() == Seq::<Seq<char>>::empty(),
            forall|t: Seq<(Seq<Message>, Result<ModelOutput>)>| #[trigger]
                a.model_may_answer(t) == model.may_answer(t),
    {
        let mut history: Vec<Message> = Vec::new();
        history.push(Message::system(system_prompt));
        // The agent is built around a stand-in, and the given model is then
        // swapped in: Verus keeps track of a trait object moved into a field by
        // `swap`, not of one written in a struct literal.
        let mut a = Agent {
            model: Box::new(EchoModel),
            registry: ToolRegistry::new(),
            history,
            max_iters: DEFAULT_MAX_ITERS,
            rounds: Ghost(Seq::empty()),
        };
        let mut model = model;
        std::mem::swap(&mut a.model, &mut model);
        a
    }

    /// Registers a tool.
    pub fn add_tool<T: Tool + 'static>(&mut self, tool: Box<T>)
        ensures
            final(self).tools() == old(self).tools().push(tool.tool_name()),
            final(self).history_view() == old(self).history_view(),
            final(self).spec_max_iters() == old(self).spec_max_iters(),
            forall|t: Seq<(Seq<Message>, Result<ModelOutput>)>| #[trigger]
                final(self).model_may_answer(t) == old(self).model_may_answer(t),
    {
        self.registry.add(tool);
    }

    /// The names of the available tools.
    pub fn available_tools(&self) -> (r: Vec<String>)
        ensures
            r@.len() == self.tools().len(),
            forall|i: int| 0 <= i < r@.len() ==> #[trigger] r@[i]@ == self.tools()[i],
    {
        self.registry.names()
    }

    /// Sets the bound on rounds per run.
    pub fn set_max_iters(&mut self, n: usize)
        ensures
            final(self).spec_max_iters() == n,
            final(self).tools() == old(self).tools(),
            final(self).history_view() == old(self).history_view(),
            forall|t: Seq<(Seq<Message>, Result<ModelOutput>)>| #[trigger]
                final(self).model_may_answer(t) == old(self).model_may_answer(t),
    {
        self.max_iters = n;
    }

    /// Runs the tool-calling loop on one user instruction: the model is asked
    /// for at most `max_iters` rounds, each time with the whole conversation;
    /// a requested tool is run and its result fed back; the model's final
    /// answer is returned. The rounds are kept in `last_run`: the model gave
    /// their replies as it may from its state before the run, and it may
    /// afterwards answer what it could have answered after them.
    pub fn run<S: IntoText>(&mut self, user_input: S) -> (r: Result<String>)
        ensures
            final(self).tools() == old(self).tools(),
            final(self).spec_max_iters() == old(self).spec_max_iters(),
            ({
                let o = old(self).history_view();
                let h = final(self).history_view();
                let rs = final(self).last_run();
                let start = o.len() + 1;
                &&& h.len() >= start
                &&& h.subrange(0, o.len() as int) == o
                &&& h[o.len() as int].role == Role::User
                &&& h[o.len() as int].content@ == user_input.text_view()
                &&& rs.len() <= old(self).spec_max_iters()
                &&& old(self).spec_max_iters() > 0 ==> rs.len() > 0
                &&& rs.len() > 0 ==> old(self).model_may_answer(trail_of(rs))
                &&& forall|t: Seq<(Seq<Message>, Result<ModelOutput>)>| #[trigger]
                    final(self).model_may_answer(t) ==> old(self).model_may_answer(trail_of(rs) + t)
                &&& forall|j: int| 0 <= j < rs.len() - 1 ==> is_tool_call(#[trigger] rs[j].reply)
                &&& forall|j: int|
                    0 <= j < rs.len() ==> #[trigger] round_recorded(
                        h,
                        start as int,
                        rs,
                        j,
                        old(self).spec_registry(),
                    )
                &&& h.len() == (if rs.len() == 0 {
                    start as int
                } else {
                    start + 2 * (rs.len() - 1) + reply_len(rs.last().reply)
                })
                &&& run_returns(rs, old(self).spec_max_iters(), r)
            }),
    {
        let ghost o = self.history@;
        let ghost tools = self.registry.tool_names();
        let ghost start: int = o.len() + 1int;
        self.history.push(Message::user(user_input));
        self.rounds = Ghost(Seq::empty());
        let mut i: usize = 0;
        while i < self.max_iters
            invariant
                self.registry.tool_names() == tools,
                self.registry == old(self).registry,
                tools == old(self).registry.tool_names(),
                self.max_iters == old(self).max_iters,
                o == old(self).history@,
                start == o.len() + 1,
                i <= self.max_iters,
                self.rounds@.len() == i,
                forall|t: Seq<(Seq<Message>, Result<ModelOutput>)>| #[trigger]
                    self.model.may_answer(t) ==> old(self).model_may_answer(
                        trail_of(self.rounds@) + t,
                    ),
                i > 0 ==> self.model.may_answer(Seq::empty()),
                self.history@.len() == start + 2 * i,
                self.history@.subrange(0, o.len() as int) == o,
                self.history@[o.len() as int].role == Role::User,
                self.history@[o.len() as int].content@ == user_input.text_view(),
                forall|j: int| 0 <= j < i ==> is_tool_call(#[trigger] self.rounds@[j].reply),
                forall|j: int|
                    0 <= j < i ==> #[trigger] round_recorded(
                        self.history@,
                        start,
                        self.rounds@,
                        j,
                        self.registry,
                    ),
            decreases self.max_iters - i,
        {
            let ghost h0 = self.history@;
            let ghost rs0 = self.rounds@;
            let ghost m0 = self.model;
            let reply = self.model.generate(self.history.as_slice());
            let ghost g_reply = reply;
            proof {
                // what the model may answer now, it may answer after this
                // reply, and so from its state before the run
                assert forall|t: Seq<(Seq<Message>, Result<ModelOutput>)>| #[trigger]
                    self.model.may_answer(t) implies old(self).model_may_answer(
                    trail_of(rs0).push((h0, g_reply)) + t,
                ) by {
                    let u = seq![(h0, g_reply)] + t;
                    assert(m0.may_answer(u));
                    assert(trail_of(rs0) + u =~= trail_of(rs0).push((h0, g_reply)) + t);
                }
            }
            let out = match reply {
                Ok(out) => out,
                Err(e) => {
                    let ghost round = Round {
                        sent: h0,
                        reply: g_reply,
                        args: Seq::empty(),
                        result: None,
                    };
                    self.rounds = Ghost(rs0.push(round));
                    proof {
                        assert(trail_of(self.rounds@) =~= trail_of(rs0).push((h0, g_reply)));
                        assert forall|j: int| 0 <= j < i + 1 implies #[trigger] round_recorded(
                            self.history@,
                            start,
                            self.rounds@,
                            j,
                            self.registry,
                        ) by {
                            if j < i {
                                assert(round_recorded(h0, start, rs0, j, self.registry));
                                assert(self.rounds@[j] == rs0[j]);
                            } else {
                                assert(h0.subrange(0, start + 2 * j) =~= h0);
                            }
                        }
                        assert forall|j: int| 0 <= j < self.rounds@.len() - 1 implies is_tool_call(
                            #[trigger] self.rounds@[j].reply,
                        ) by {
                            assert(self.rounds@[j] == rs0[j]);
                        }
                    }
                    return Err(e);
                },
            };
            let ghost g_out = out;
            let (args, result) = match &out {
                ModelOutput::ToolCall(tc) => {
                    let args = debug_arguments(&tc.arguments);
                    let result = match self.registry.get(tc.name.as_str()) {
                        Some(tool) => {
                            let res = tool.run(&tc.arguments);
                            proof {
                                let k = choose|k: int|
                                    first_named(tools, tc.name@, k) && *tool
                                        == #[trigger] self.registry.registered()[k];
                                self.registry.lemma_handed_out(k, tool, tc.arguments, res);
                                assert(first_named(tools, tc.name@, k)
                                    && self.registry.tool_may_return(k, tc.arguments, res));
                            }
                            Some(res)
                        },
                        None => None,
                    };
                    (args, result)
                },
                ModelOutput::Text(_) => (String::new(), None),
            };
            let ghost g_args = args@;
            let ghost g_result = result;
            let answer = record_output(&mut self.history, out, args.as_str(), result);
            let ghost round = Round {
                sent: h0,
                reply: g_reply,
                args: g_args,
                result: g_result,
            };
            self.rounds = Ghost(rs0.push(round));
            proof {
                assert(trail_of(self.rounds@) =~= trail_of(rs0).push((h0, g_reply)));
                let h = self.history@;
                assert(h.subrange(0, o.len() as int) =~= o) by {
                    assert forall|k: int| 0 <= k < o.len() implies h.subrange(0, o.len() as int)[k]
                        == o[k] by {
                        assert(h.subrange(0, h0.len() as int)[k] == h[k]);
                        assert(h0.subrange(0, o.len() as int)[k] == h0[k]);
                    }
                }
                assert(h.subrange(0, h0.len() as int)[o.len() as int] == h[o.len() as int]);
                assert forall|j: int| 0 <= j < i + 1 implies #[trigger] round_recorded(
                    h,
                    start,
                    self.rounds@,
                    j,
                    self.registry,
                ) by {
                    if j < i {
                        assert(round_recorded(h0, start, rs0, j, self.registry));
                        assert(self.rounds@[j] == rs0[j]);
                        assert(is_tool_call(rs0[j].reply));
                        lemma_round_kept(h0, h, start, self.rounds@, j, self.registry);
                    } else {
                        assert(h.subrange(0, start + 2 * j) =~= h0) by {
                            assert forall|k: int| 0 <= k < h0.len() implies h.subrange(
                                0,
                                start + 2 * j,
                            )[k] == h0[k] by {
                                assert(h.subrange(0, h0.len() as int)[k] == h[k]);
                            }
                        }
                    }
                }
                assert forall|j: int| 0 <= j < i implies is_tool_call(
                    #[trigger] self.rounds@[j].reply,
                ) by {
                    assert(self.rounds@[j] == rs0[j]);
                }
            }
            match answer {
                Some(a) => {
                    assert(old(self).spec_registry() == self.registry);
                    return Ok(a);
                },
                None => {},
            }
            i = i + 1;
        }
        let m = concat(owned("exceeded max iterations ("), decimal_string(self.max_iters).as_str());
        let m = concat(m, ")");
        assert(m@ =~= exceeded_note(self.max_iters as nat));
        Err(BrainError::Agent(m))
    }

    /// The conversation so far (for debugging).
    pub fn history(&self) -> (h: &[Message])
        ensures
            h@ == self.history_view(),
    {
        self.history.as_slice()
    }

    /// Clears the conversation down to its system prompt (the model is kept).
    pub fn reset(&mut self)
        ensures
            final(self).history_view().len() == 1,
            final(self).history_view()[0].role == Role::System,
            final(self).history_view()[0].content@ == (if old(self).history_view().len() > 0 {
                old(self).history_view()[0].content@
            } else {
                Seq::<char>::empty()
            }),
            final(self).tools() == old(self).tools(),
            final(self).spec_max_iters() == old(self).spec_max_iters(),
            forall|t: Seq<(Seq<Message>, Result<ModelOutput>)>| #[trigger]
                final(self).model_may_answer(t) == old(self).model_may_answer(t),
    {
        let content = if self.history.len() > 0 {
            self.history[0].content.clone()
        } else {
            String::new()
        };
        let mut h: Vec<Message> = Vec::new();
        h.push(Message::system(content));
        self.history = h;
    }
}

} // verus!
