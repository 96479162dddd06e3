//! Tools the agent can call, and the registry that finds them by name.
use vstd::prelude::*;
use std::collections::HashMap;
use crate::error::Result;
use crate::text::{owned, same_text};
use crate::types::IntoText;

verus! {

/// A capability the agent can call.
pub trait Tool: Send + Sync {
    /// The name the tool answers to.
    spec fn tool_name(&self) -> Seq<char>;

    /// The name the tool answers to; the same on every call.
    fn name(&self) -> (r: &str)
        ensures
            r@ == self.tool_name(),
    ;

    fn description(&self) -> (r: &str);

    /// Whether the tool may answer `args` with `r`; any answer, unless a tool
    /// says more.
    closed spec fn may_return(&self, args: HashMap<String, String>, r: Result<String>) -> bool {
        true
    }

    fn run(&self, args: &HashMap<String, String>) -> (r: Result<String>)
        ensures
            self.may_return(*args, r),
    ;
}

/// Turns a closure into a tool, without a struct per capability.
pub struct FnTool<F> where
    F: Fn(&HashMap<String, String>) -> Result<String> + Send + Sync + 'static,
 {
    name: String,
    description: String,
    f: F,
}

impl<F> FnTool<F> where F: Fn(&HashMap<String, String>) -> Result<String> + Send + Sync + 'static {
    #[verifier::type_invariant]
    spec fn callable_on_any_arguments(self) -> bool {
        forall|args: &HashMap<String, String>| #[trigger] self.f.requires((args,))
    }

    pub closed spec fn spec_description(&self) -> Seq<char> {
        self.description@
    }

    /// The closure the tool runs.
    pub closed spec fn body(&self) -> F {
        self.f
    }

    /// A tool named `name` that runs `f`.
    pub fn new<N: IntoText, D: IntoText>(name: N, description: D, f: F) -> (t: Self)
        requires
            forall|args: &HashMap<String, String>| #[trigger] f.requires((args,)),
        ensures
            t.name_view() == name.text_view(),
            t.spec_description() == description.text_view(),
            t.body() == f,
    {
        FnTool { name: name.into_text(), description: description.into_text(), f }
    }
}

impl<F> Tool for FnTool<F> where
    F: Fn(&HashMap<String, String>) -> Result<String> + Send + Sync + 'static,
 {
    open spec fn tool_name(&self) -> Seq<char> {
        self.name_view()
    }

    fn name(&self) -> (r: &str) {
        self.name.as_str()
    }

    fn description(&self) -> (r: &str)
        ensures
            r@ == self.spec_description(),
    {
        self.description.as_str()
    }

    /// What the closure may return for `args`.
    open spec fn may_return(&self, args: HashMap<String, String>, r: Result<String>) -> bool {
        self.body().ensures((&args,), r)
    }

    fn run(&self, args: &HashMap<String, String>) -> (r: Result<String>)
        ensures
            self.body().ensures((args,), r),
    {
        proof {
            use_type_invariant(self);
        }
        (self.f)(args)
    }
}

impl<F> FnTool<F> where F: Fn(&HashMap<String, String>) -> Result<String> + Send + Sync + 'static {
    pub closed spec fn name_view(&self) -> Seq<char> {
        self.name@
    }
}

/// Whether `name` occurs in `names`.
pub open spec fn has_tool(names: Seq<Seq<char>>, name: Seq<char>) -> bool {
    exists|i: int| 0 <= i < names.len() && #[trigger] names[i] == name
}

/// Whether `i` is the first position of `name` in `names`.
pub open spec fn first_named(names: Seq<Seq<char>>, name: Seq<char>, i: int) -> bool {
    &&& 0 <= i < names.len()
    &&& names[i] == name
    &&& forall|j: int| 0 <= j < i ==> #[trigger] names[j] != name
}

/// Tool registry, indexed by name. A tool's name is read once, when it is
/// registered.
pub struct ToolRegistry {
    tools: Vec<Box<dyn Tool>>,
    names: Vec<String>,
}

impl ToolRegistry {
    /// Every registered tool has its name recorded.
    #[verifier::type_invariant]
    spec fn names_match_tools(self) -> bool {
        self.tools@.len() == self.names@.len()
    }

    /// The registered tools, in registration order.
    pub closed spec fn registered(&self) -> Seq<Box<dyn Tool>> {
        self.tools@
    }

    /// Whether the `i`-th registered tool may answer `args` with `r`.
    pub closed spec fn tool_may_return(
        &self,
        i: int,
        args: HashMap<String, String>,
        r: Result<String>,
    ) -> bool {
        self.tools@[i].may_return(args, r)
    }

    /// A tool handed out by the registry answers as the registered tool it is.
    pub(crate) proof fn lemma_handed_out(&self, i: int, t: &Box<dyn Tool>, args: HashMap<String, String>, r: Result<String>)
        requires
            *t == self.registered()[i],
            t.may_return(args, r),
        ensures
            self.tool_may_return(i, args, r),
    {
    }

    /// The names of the registered tools, in registration order.
    pub closed spec fn tool_names(&self) -> Seq<Seq<char>> {
        self.names@.map_values(|n: String| n@)
    }

    pub fn new() -> (r: Self)
        ensures
            r.tool_names() == Seq::<Seq<char>>::empty(),
            r.registered() == Seq::<Box<dyn Tool>>::empty(),
    {
        let r = ToolRegistry { tools: Vec::new(), names: Vec::new() };
        assert(r.tool_names() =~= Seq::<Seq<char>>::empty());
        r
    }

    /// Registers a tool under the name it reports.
    pub fn add<T: Tool + 'static>(&mut self, tool: Box<T>)
        ensures
            final(self).tool_names() == old(self).tool_names().push(tool.tool_name()),
            final(self).registered().len() == old(self).registered().len() + 1,
            final(self).registered().subrange(0, old(self).registered().len() as int) == old(
                self,
            ).registered(),
    {
        let n = owned(tool.name());
        let ghost before = self.names@;
        let mut taken = ToolRegistry::new();
        std::mem::swap(self, &mut taken);
        proof {
            use_type_invariant(&taken);
        }
        let ToolRegistry { mut tools, mut names } = taken;
        let ghost prior = tools@;
        names.push(n);
        tools.push(tool);
        proof {
            // the sequence facts for trait objects are not picked up
            // automatically
            vstd::seq::axiom_seq_push_len(prior, tool);
            assert forall|i: int| 0 <= i < prior.len() implies #[trigger] tools@[i] == prior[i] by {
                vstd::seq::axiom_seq_push_index_different(prior, tool, i);
            }
            assert(tools@.subrange(0, prior.len() as int) =~= prior);
        }
        *self = ToolRegistry { tools, names };
        assert(self.tool_names() =~= before.map_values(|n: String| n@).push(tool.tool_name()));
    }

    /// The first registered tool named `name`.
    pub fn get(&self, name: &str) -> (r: Option<&Box<dyn Tool>>)
        ensures
            r is Some <==> has_tool(self.tool_names(), name@),
            r matches Some(t) ==> exists|i: int|
                first_named(self.tool_names(), name@, i) && *t == #[trigger] self.registered()[i],
    {
        proof {
            use_type_invariant(self);
        }
        let mut i: usize = 0;
        while i < self.names.len()
            invariant
                i <= self.names@.len(),
                self.tools@.len() == self.names@.len(),
                forall|j: int| 0 <= j < i ==> #[trigger] self.names@[j]@ != name@,
            decreases self.names@.len() - i,
        {
            if same_text(self.names[i].as_str(), name) {
                assert(self.tool_names()[i as int] == name@);
                assert forall|j: int| 0 <= j < i implies #[trigger] self.tool_names()[j] != name@ by {
                    assert(self.tool_names()[j] == self.names@[j]@);
                }
                assert(first_named(self.tool_names(), name@, i as int));
                let t = &self.tools[i];
                assert(*t == self.registered()[i as int]);
                return Some(t);
            }
            i = i + 1;
        }
        assert forall|j: int| 0 <= j < self.tool_names().len() implies #[trigger] self.tool_names()[j]
            != name@ by {
            assert(self.tool_names()[j] == self.names@[j]@);
        }
        None
    }

    /// Whether no tool is registered.
    pub fn is_empty(&self) -> (b: bool)
        ensures
            b == (self.tool_names().len() == 0),
    {
        self.names.len() == 0
    }

    /// The names of all registered tools, in registration order.
    pub fn names(&self) -> (r: Vec<String>)
        ensures
            r@.len() == self.tool_names().len(),
            forall|i: int| 0 <= i < r@.len() ==> #[trigger] r@[i]@ == self.tool_names()[i],
    {
        let mut out: Vec<String> = Vec::new();
        let mut i: usize = 0;
        while i < self.names.len()
            invariant
                i <= self.names@.len(),
                out@.len() == i,
                forall|k: int| 0 <= k < i ==> #[trigger] out@[k]@ == self.names@[k]@,
            decreases self.names@.len() - i,
        {
            out.push(self.names[i].clone());
            i = i + 1;
        }
        out
    }

    /// Number of registered tools.
    pub fn len(&self) -> (n: usize)
        ensures
            n == self.tool_names().len(),
    {
        self.names.len()
    }
}


impl Default for ToolRegistry {
    /// An empty registry.
    fn default() -> (r: Self)
        ensures
            r.tool_names() == Seq::<Seq<char>>::empty(),
            r.registered() == Seq::<Box<dyn Tool>>::empty(),
    {
        ToolRegistry::new()
    }
}

} // verus!
