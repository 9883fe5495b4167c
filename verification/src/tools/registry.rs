//! The registry of tools: one tool under each name.

use crate::text::{str_eq, views};
use crate::tools::{AgentTool, ToolDefinition};
use std::sync::Arc;
use vstd::prelude::*;

verus! {

/// A tool under its name.
pub struct RegisteredTool<T> {
    pub name: String,
    pub tool: Arc<T>,
}

/// The tools that a session offers, and the manager of its tool servers.
pub struct ToolRegistry<T, M> {
    pub tools: Vec<RegisteredTool<T>>,
    pub mcp_manager: Option<Arc<M>>,
}

/// `Arc::clone`: another pointer to the same value.
#[verifier::external_body]
fn share<T>(value: &Arc<T>) -> (r: Arc<T>)
    ensures
        r == *value,
{
    Arc::clone(value)
}

/// Whether a tool of that name is among the registered ones.
pub open spec fn has_name<T>(tools: Seq<RegisteredTool<T>>, name: Seq<char>) -> bool {
    exists|i: int| 0 <= i < tools.len() && (#[trigger] tools[i]).name@ == name
}

/// The tools by their names.
pub open spec fn by_name<T>(tools: Seq<RegisteredTool<T>>) -> Map<Seq<char>, Arc<T>> {
    Map::new(
        |name: Seq<char>| has_name(tools, name),
        |name: Seq<char>|
            tools[choose|i: int|
                0 <= i < tools.len() && (#[trigger] tools[i]).name@ == name].tool,
    )
}

/// Whether no two tools have the same name, and each stands under its own.
pub open spec fn names_own<T: AgentTool>(tools: Seq<RegisteredTool<T>>) -> bool {
    &&& forall|i: int, j: int|
        0 <= i < j < tools.len() ==> (#[trigger] tools[i]).name@ != (#[trigger] tools[j]).name@
    &&& forall|i: int|
        0 <= i < tools.len() ==> (#[trigger] tools[i]).name@ == tools[i].tool.name_view()
}

impl<T: AgentTool, M> View for ToolRegistry<T, M> {
    type V = Map<Seq<char>, Arc<T>>;

    open spec fn view(&self) -> Map<Seq<char>, Arc<T>> {
        by_name(self.tools@)
    }
}

proof fn lemma_by_name<T: AgentTool>(tools: Seq<RegisteredTool<T>>, i: int)
    requires
        names_own(tools),
        0 <= i < tools.len(),
    ensures
        by_name(tools).contains_key(tools[i].name@),
        by_name(tools)[tools[i].name@] == tools[i].tool,
{
    let name = tools[i].name@;
    let k = choose|k: int| 0 <= k < tools.len() && (#[trigger] tools[k]).name@ == name;
    if k < i {
        assert(tools[k].name@ != tools[i].name@);
    } else if i < k {
        assert(tools[i].name@ != tools[k].name@);
    }
}

proof fn lemma_by_name_pushed<T: AgentTool>(
    before: Seq<RegisteredTool<T>>,
    entry: RegisteredTool<T>,
)
    requires
        names_own(before),
        !has_name(before, entry.name@),
        entry.name@ == entry.tool.name_view(),
    ensures
        names_own(before.push(entry)),
        by_name(before.push(entry)) == by_name(before).insert(entry.name@, entry.tool),
{
    let after = before.push(entry);
    assert forall|i: int, j: int| 0 <= i < j < after.len() implies (#[trigger] after[i]).name@ != (
    #[trigger] after[j]).name@ by {
        assert(after[i] == before[i]);
        if j < before.len() {
            assert(after[j] == before[j]);
            assert(before[i].name@ != before[j].name@);
        } else {
            assert(has_name(before, before[i].name@));
        }
    }
    assert forall|i: int| 0 <= i < after.len() implies (#[trigger] after[i]).name@
        == after[i].tool.name_view() by {
        if i < before.len() {
            assert(after[i] == before[i]);
        }
    }
    let a = by_name(after);
    let b = by_name(before).insert(entry.name@, entry.tool);
    lemma_by_name(after, before.len() as int);
    assert forall|name: Seq<char>| a.contains_key(name) == b.contains_key(name) by {
        if has_name(after, name) {
            let i = choose|i: int| 0 <= i < after.len() && (#[trigger] after[i]).name@ == name;
            if i < before.len() {
                assert(before[i].name@ == name);
            }
        }
        if has_name(before, name) {
            let i = choose|i: int| 0 <= i < before.len() && (#[trigger] before[i]).name@ == name;
            assert(after[i].name@ == name);
        }
    }
    assert forall|name: Seq<char>| a.contains_key(name) implies a[name] == b[name] by {
        let i = choose|i: int| 0 <= i < after.len() && (#[trigger] after[i]).name@ == name;
        lemma_by_name(after, i);
        if i < before.len() {
            lemma_by_name(before, i);
            assert(has_name(before, name));
        }
    }
    assert(a =~= b);
}

proof fn lemma_by_name_removed<T: AgentTool>(before: Seq<RegisteredTool<T>>, at: int)
    requires
        names_own(before),
        0 <= at < before.len(),
    ensures
        names_own(before.remove(at)),
        by_name(before.remove(at)) == by_name(before).remove(before[at].name@),
        !has_name(before.remove(at), before[at].name@),
{
    let after = before.remove(at);
    let name_at = before[at].name@;
    assert forall|i: int, j: int| 0 <= i < j < after.len() implies (#[trigger] after[i]).name@ != (
    #[trigger] after[j]).name@ by {
        let ii = if i < at { i } else { i + 1 };
        let jj = if j < at { j } else { j + 1 };
        assert(before[ii].name@ != before[jj].name@);
    }
    assert forall|i: int| 0 <= i < after.len() implies (#[trigger] after[i]).name@
        == after[i].tool.name_view() && after[i].name@ != name_at by {
        let ii = if i < at { i } else { i + 1 };
        assert(before[ii] == after[i]);
        if ii < at {
            assert(before[ii].name@ != before[at].name@);
        } else {
            assert(before[at].name@ != before[ii].name@);
        }
    }
    let a = by_name(after);
    let b = by_name(before).remove(name_at);
    assert forall|name: Seq<char>| a.contains_key(name) == b.contains_key(name) by {
        if has_name(after, name) {
            let i = choose|i: int| 0 <= i < after.len() && (#[trigger] after[i]).name@ == name;
            let ii = if i < at { i } else { i + 1 };
            assert(before[ii].name@ == name);
        }
        if b.contains_key(name) {
            let ii = choose|ii: int| 0 <= ii < before.len() && (#[trigger] before[ii]).name@ == name;
            let i = if ii < at { ii } else { ii - 1 };
            assert(after[i] == before[ii]);
        }
    }
    assert forall|name: Seq<char>| a.contains_key(name) implies a[name] == b[name] by {
        let i = choose|i: int| 0 <= i < after.len() && (#[trigger] after[i]).name@ == name;
        let ii = if i < at { i } else { i + 1 };
        assert(after[i] == before[ii]);
        lemma_by_name(after, i);
        lemma_by_name(before, ii);
    }
    assert(a =~= b);
}

impl<T: AgentTool, M> ToolRegistry<T, M> {
    /// Whether no two tools have the same name, and each stands under its own.
    pub open spec fn wf(&self) -> bool {
        names_own(self.tools@)
    }

    /// A registry without tools.
    pub fn new() -> (r: Self)
        ensures
            r.wf(),
            r@ == Map::<Seq<char>, Arc<T>>::empty(),
            r.mcp_manager is None,
    {
        let r = ToolRegistry { tools: Vec::new(), mcp_manager: None };
        proof {
            assert(r@ =~= Map::<Seq<char>, Arc<T>>::empty());
        }
        r
    }

    /// Sets the manager of the tool servers.
    pub fn set_mcp_manager(&mut self, mgr: Arc<M>)
        ensures
            final(self).mcp_manager == Some(mgr),
            final(self).tools == old(self).tools,
    {
        self.mcp_manager = Some(mgr);
    }

    /// The manager of the tool servers.
    pub fn mcp_manager(&self) -> (r: Option<Arc<M>>)
        ensures
            r == self.mcp_manager,
    {
        match &self.mcp_manager {
            Some(mgr) => Some(share(mgr)),
            None => None,
        }
    }

    /// The place of a name among the tools.
    fn find(&self, name: &str) -> (r: Option<usize>)
        requires
            self.wf(),
        ensures
            match r {
                Some(i) => i < self.tools@.len() && self.tools@[i as int].name@ == name@
                    && self@.contains_key(name@) && self@[name@] == self.tools@[i as int].tool,
                None => !self@.contains_key(name@) && !has_name(self.tools@, name@),
            },
    {
        let mut i: usize = 0;
        while i < self.tools.len()
            invariant
                i <= self.tools@.len(),
                self.wf(),
                forall|j: int| 0 <= j < i ==> (#[trigger] self.tools@[j]).name@ != name@,
            decreases self.tools@.len() - i,
        {
            if str_eq(self.tools[i].name.as_str(), name) {
                proof {
                    lemma_by_name(self.tools@, i as int);
                }
                return Some(i);
            }
            i += 1;
        }
        None
    }

    /// Registers a tool under its name, in place of one that has it.
    pub fn register(&mut self, tool: T)
        requires
            old(self).wf(),
        ensures
            final(self).wf(),
            final(self)@ == old(self)@.insert(tool.name_view(), Arc::new(tool)),
            final(self).mcp_manager == old(self).mcp_manager,
    {
        self.register_arc(Arc::new(tool));
    }

    /// Registers a shared tool under its name, in place of one that has it.
    pub fn register_arc(&mut self, tool: Arc<T>)
        requires
            old(self).wf(),
        ensures
            final(self).wf(),
            final(self)@ == old(self)@.insert(tool.name_view(), tool),
            final(self).mcp_manager == old(self).mcp_manager,
    {
        let name = tool.name().to_owned();
        let ghost before = self@;
        match self.find(name.as_str()) {
            Some(at) => {
                let ghost tools = self.tools@;
                self.tools.remove(at);
                proof {
                    lemma_by_name_removed(tools, at as int);
                }
            },
            None => {},
        }
        let ghost rest = self.tools@;
        let entry = RegisteredTool { name, tool };
        self.tools.push(entry);
        proof {
            lemma_by_name_pushed(rest, entry);
            assert(self@ =~= before.insert(entry.name@, entry.tool));
        }
    }

    /// The tool of a name.
    pub fn get(&self, name: &str) -> (r: Option<Arc<T>>)
        requires
            self.wf(),
        ensures
            match r {
                Some(tool) => self@.contains_key(name@) && self@[name@] == tool,
                None => !self@.contains_key(name@),
            },
    {
        match self.find(name) {
            Some(i) => Some(share(&self.tools[i].tool)),
            None => None,
        }
    }

    /// Removes the tool of a name, and says whether there was one.
    pub fn unregister(&mut self, name: &str) -> (r: bool)
        requires
            old(self).wf(),
        ensures
            final(self).wf(),
            r == old(self)@.contains_key(name@),
            final(self)@ == old(self)@.remove(name@),
            final(self).mcp_manager == old(self).mcp_manager,
    {
        match self.find(name) {
            Some(at) => {
                let ghost tools = self.tools@;
                self.tools.remove(at);
                proof {
                    lemma_by_name_removed(tools, at as int);
                }
                true
            },
            None => {
                proof {
                    assert(self@.remove(name@) =~= self@);
                }
                false
            },
        }
    }
}

/// Whether a name is among the texts.
pub fn holds_text(texts: &Vec<String>, name: &str) -> (r: bool)
    ensures
        r == views(texts@).contains(name@),
{
    let mut i: usize = 0;
    while i < texts.len()
        invariant
            i <= texts@.len(),
            forall|j: int| 0 <= j < i ==> views(texts@)[j] != name@,
        decreases texts@.len() - i,
    {
        if str_eq(texts[i].as_str(), name) {
            proof {
                assert(views(texts@)[i as int] == name@);
            }
            return true;
        }
        i += 1;
    }
    false
}

/// Whether a tool is offered where some are turned off: one that is essential cannot
/// be, and cached search results go with the web search that fills the cache.
pub open spec fn selected<T: AgentTool>(tool: Arc<T>, disabled: Seq<Seq<char>>) -> bool {
    &&& tool.essential_view() || !disabled.contains(tool.name_view())
    &&& !(tool.name_view() == "get_search_results"@ && disabled.contains("web_search"@))
}

/// The tools that are offered, by their names; of two with one name, the later.
pub open spec fn offered<T: AgentTool>(all_tools: Seq<Arc<T>>, disabled: Seq<Seq<char>>) -> Map<
    Seq<char>,
    Arc<T>,
>
    decreases all_tools.len(),
{
    if all_tools.len() == 0 {
        Map::empty()
    } else {
        let front = offered(all_tools.drop_last(), disabled);
        let last = all_tools.last();
        if selected(last, disabled) {
            front.insert(last.name_view(), last)
        } else {
            front
        }
    }
}

/// The tools with the given names.
pub open spec fn named_tools<T: AgentTool>(all_tools: Seq<Arc<T>>, names: Seq<Seq<char>>) -> Map<
    Seq<char>,
    Arc<T>,
> {
    offered(all_tools, Seq::empty()).restrict(Set::new(|name: Seq<char>| names.contains(name)))
}

impl<T: AgentTool, M> ToolRegistry<T, M> {
    /// The names of the tools, each once, in no particular order.
    pub fn names(&self) -> (r: Vec<String>)
        requires
            self.wf(),
        ensures
            views(r@).no_duplicates(),
            forall|name: Seq<char>| #[trigger]
                views(r@).contains(name) == self@.contains_key(name),
    {
        let mut out: Vec<String> = Vec::new();
        let mut i: usize = 0;
        while i < self.tools.len()
            invariant
                i <= self.tools@.len(),
                out@.len() == i,
                forall|j: int| 0 <= j < i ==> (#[trigger] out@[j])@ == self.tools@[j].name@,
            decreases self.tools@.len() - i,
        {
            out.push(self.tools[i].name.clone());
            i += 1;
        }
        proof {
            assert forall|j: int, k: int|
                0 <= j < views(out@).len() && 0 <= k < views(out@).len() && j != k implies views(
                out@,
            )[j] != views(out@)[k] by {
                assert(out@[j]@ == self.tools@[j].name@ && out@[k]@ == self.tools@[k].name@);
                if j < k {
                    assert(self.tools@[j].name@ != self.tools@[k].name@);
                } else {
                    assert(self.tools@[k].name@ != self.tools@[j].name@);
                }
            }
            assert forall|name: Seq<char>| #[trigger] views(out@).contains(name)
                == self@.contains_key(name) by {
                if views(out@).contains(name) {
                    let j = views(out@).index_of(name);
                    assert(out@[j]@ == name);
                    assert(self.tools@[j].name@ == name);
                }
                if self@.contains_key(name) {
                    let j = choose|j: int|
                        0 <= j < self.tools@.len() && (#[trigger] self.tools@[j]).name@ == name;
                    assert(out@[j]@ == name);
                    assert(views(out@)[j] == name);
                }
            }
        }
        out
    }

    /// The tools as a model is told of them, each once, in no particular order.
    pub fn definitions(&self) -> (r: Vec<ToolDefinition>)
        requires
            self.wf(),
        ensures
            forall|i: int, j: int|
                0 <= i < j < r@.len() ==> (#[trigger] r@[i]).name@ != (#[trigger] r@[j]).name@,
            forall|i: int|
                0 <= i < r@.len() ==> self@.contains_key((#[trigger] r@[i]).name@)
                    && r@[i].description@ == self@[r@[i].name@].description_view()
                    && r@[i].input_schema@ == self@[r@[i].name@].schema_view()
                    && crate::json::json_wf(r@[i].input_schema),
            forall|name: Seq<char>| #[trigger]
                self@.contains_key(name) ==> exists|i: int|
                    0 <= i < r@.len() && (#[trigger] r@[i]).name@ == name,
    {
        let mut out: Vec<ToolDefinition> = Vec::new();
        let mut i: usize = 0;
        while i < self.tools.len()
            invariant
                i <= self.tools@.len(),
                self.wf(),
                out@.len() == i,
                forall|j: int|
                    0 <= j < i ==> (#[trigger] out@[j]).name@ == self.tools@[j].name@
                        && out@[j].description@ == self.tools@[j].tool.description_view()
                        && out@[j].input_schema@ == self.tools@[j].tool.schema_view()
                        && crate::json::json_wf(out@[j].input_schema),
            decreases self.tools@.len() - i,
        {
            out.push(self.tools[i].tool.to_definition());
            i += 1;
        }
        proof {
            assert forall|i: int, j: int| 0 <= i < j < out@.len() implies (
            #[trigger] out@[i]).name@ != (#[trigger] out@[j]).name@ by {
                assert(self.tools@[i].name@ != self.tools@[j].name@);
            }
            assert forall|i: int| 0 <= i < out@.len() implies self@.contains_key(
                (#[trigger] out@[i]).name@,
            ) && out@[i].description@ == self@[out@[i].name@].description_view()
                && out@[i].input_schema@ == self@[out@[i].name@].schema_view()
                && crate::json::json_wf(out@[i].input_schema) by {
                lemma_by_name(self.tools@, i);
            }
            assert forall|name: Seq<char>| #[trigger]
                self@.contains_key(name) implies exists|i: int|
                0 <= i < out@.len() && (#[trigger] out@[i]).name@ == name by {
                let j = choose|j: int|
                    0 <= j < self.tools@.len() && (#[trigger] self.tools@[j]).name@ == name;
                assert(out@[j].name@ == name);
            }
        }
        out
    }

    /// The tools, each once, in no particular order.
    pub fn get_tools(&self) -> (r: Vec<Arc<T>>)
        requires
            self.wf(),
        ensures
            forall|i: int, j: int|
                0 <= i < j < r@.len() ==> (#[trigger] r@[i]).name_view() != (
                #[trigger] r@[j]).name_view(),
            forall|i: int|
                0 <= i < r@.len() ==> self@.contains_key((#[trigger] r@[i]).name_view())
                    && self@[r@[i].name_view()] == r@[i],
            forall|name: Seq<char>| #[trigger]
                self@.contains_key(name) ==> exists|i: int|
                    0 <= i < r@.len() && (#[trigger] r@[i]).name_view() == name,
    {
        let mut out: Vec<Arc<T>> = Vec::new();
        let mut i: usize = 0;
        while i < self.tools.len()
            invariant
                i <= self.tools@.len(),
                out@.len() == i,
                forall|j: int| 0 <= j < i ==> (#[trigger] out@[j]) == self.tools@[j].tool,
            decreases self.tools@.len() - i,
        {
            out.push(share(&self.tools[i].tool));
            i += 1;
        }
        proof {
            assert forall|i: int, j: int| 0 <= i < j < out@.len() implies (
            #[trigger] out@[i]).name_view() != (#[trigger] out@[j]).name_view() by {
                assert(self.tools@[i].name@ != self.tools@[j].name@);
            }
            assert forall|i: int| 0 <= i < out@.len() implies self@.contains_key(
                (#[trigger] out@[i]).name_view(),
            ) && self@[out@[i].name_view()] == out@[i] by {
                lemma_by_name(self.tools@, i);
                assert(self.tools@[i].name@ == self.tools@[i].tool.name_view());
            }
            assert forall|name: Seq<char>| #[trigger]
                self@.contains_key(name) implies exists|i: int|
                0 <= i < out@.len() && (#[trigger] out@[i]).name_view() == name by {
                let j = choose|j: int|
                    0 <= j < self.tools@.len() && (#[trigger] self.tools@[j]).name@ == name;
                assert(out@[j].name_view() == name);
            }
        }
        out
    }

    /// Whether every required name has a tool.
    pub fn has_all(&self, required: &[&str]) -> (r: bool)
        requires
            self.wf(),
        ensures
            r == (forall|i: int|
                0 <= i < required@.len() ==> self@.contains_key((#[trigger] required@[i])@)),
    {
        let mut i: usize = 0;
        while i < required.len()
            invariant
                i <= required@.len(),
                self.wf(),
                forall|j: int| 0 <= j < i ==> self@.contains_key((#[trigger] required@[j])@),
            decreases required@.len() - i,
        {
            if self.find(required[i]).is_none() {
                return false;
            }
            i += 1;
        }
        true
    }

    /// The required names that have no tool, in their order.
    pub fn missing<'a>(&self, required: &[&'a str]) -> (r: Vec<&'a str>)
        requires
            self.wf(),
        ensures
            r@ == required@.filter(|name: &str| !self@.contains_key(name@)),
    {
        let mut out: Vec<&'a str> = Vec::new();
        let ghost p = |name: &str| !self@.contains_key(name@);
        let mut i: usize = 0;
        proof {
            reveal(Seq::filter);
        }
        while i < required.len()
            invariant
                i <= required@.len(),
                self.wf(),
                p == (|name: &str| !self@.contains_key(name@)),
                out@ == required@.take(i as int).filter(p),
            decreases required@.len() - i,
        {
            let name = required[i];
            if self.find(name).is_none() {
                out.push(name);
            }
            i += 1;
            proof {
                reveal(Seq::filter);
                assert(required@.take(i as int).drop_last() =~= required@.take(i - 1));
            }
        }
        proof {
            assert(required@.take(i as int) =~= required@);
        }
        out
    }

    /// A registry of the built-in tools without those that are turned off, and with the
    /// manager of their tool servers.
    pub fn with_builtins_cwd(
        all_tools: &Vec<Arc<T>>,
        disabled_tools: &Vec<String>,
        mcp_manager: Arc<M>,
    ) -> (r: Self)
        ensures
            r.wf(),
            r@ == offered(all_tools@, views(disabled_tools@)),
            r.mcp_manager == Some(mcp_manager),
    {
        let mut registry = Self::new();
        registry.set_mcp_manager(mcp_manager);
        let search_off = holds_text(disabled_tools, "web_search");
        let mut i: usize = 0;
        proof {
            assert(all_tools@.take(0) =~= Seq::empty());
        }
        while i < all_tools.len()
            invariant
                i <= all_tools@.len(),
                search_off == views(disabled_tools@).contains("web_search"@),
                registry.wf(),
                registry.mcp_manager == Some(mcp_manager),
                registry@ == offered(all_tools@.take(i as int), views(disabled_tools@)),
            decreases all_tools@.len() - i,
        {
            let tool = &all_tools[i];
            proof {
                assert(all_tools@.take(i + 1).drop_last() =~= all_tools@.take(i as int));
            }
            if tool.essential() || !holds_text(disabled_tools, tool.name()) {
                if !(str_eq(tool.name(), "get_search_results") && search_off) {
                    registry.register_arc(share(tool));
                }
            }
            i += 1;
        }
        proof {
            assert(all_tools@.take(i as int) =~= all_tools@);
        }
        registry
    }

    /// A registry of all built-in tools.
    pub fn with_builtins(all_tools: &Vec<Arc<T>>, mcp_manager: Arc<M>) -> (r: Self)
        ensures
            r.wf(),
            r@ == offered(all_tools@, Seq::empty()),
            r.mcp_manager == Some(mcp_manager),
    {
        let none: Vec<String> = Vec::new();
        proof {
            assert(views(none@) =~= Seq::empty());
        }
        Self::with_builtins_cwd(all_tools, &none, mcp_manager)
    }

    /// Registers the tools of another registry, in place of those with their names.
    pub fn extend_from(&mut self, other: &ToolRegistry<T, M>)
        requires
            old(self).wf(),
            other.wf(),
        ensures
            final(self).wf(),
            final(self)@ == old(self)@.union_prefer_right(other@),
            final(self).mcp_manager == old(self).mcp_manager,
    {
        let ghost before = self@;
        let mut i: usize = 0;
        proof {
            assert(before.union_prefer_right(by_name(other.tools@.take(0))) =~= before);
        }
        while i < other.tools.len()
            invariant
                i <= other.tools@.len(),
                other.wf(),
                names_own(other.tools@.take(i as int)),
                self.wf(),
                self.mcp_manager == old(self).mcp_manager,
                self@ == before.union_prefer_right(by_name(other.tools@.take(i as int))),
            decreases other.tools@.len() - i,
        {
            let ghost at = self@;
            self.register_arc(share(&other.tools[i].tool));
            proof {
                let front = other.tools@.take(i as int);
                let entry = other.tools@[i as int];
                assert(!has_name(front, entry.name@)) by {
                    assert forall|j: int| 0 <= j < front.len() implies (
                    #[trigger] front[j]).name@ != entry.name@ by {
                        assert(other.tools@[j].name@ != other.tools@[i as int].name@);
                    }
                }
                lemma_by_name_pushed(front, entry);
                assert(other.tools@.take(i + 1) =~= front.push(entry));
                assert(self@ =~= before.union_prefer_right(by_name(other.tools@.take(i + 1))));
            }
            i += 1;
        }
        proof {
            assert(other.tools@.take(i as int) =~= other.tools@);
        }
    }

    /// A registry of the built-in tools with the given names.
    pub fn with_selected_tools(
        all_tools: &Vec<Arc<T>>,
        names: &Vec<String>,
        mcp_manager: Arc<M>,
    ) -> (r: Self)
        ensures
            r.wf(),
            r@ == named_tools(all_tools@, views(names@)),
            r.mcp_manager is None,
    {
        let full = Self::with_builtins(all_tools, mcp_manager);
        let mut registry = Self::new();
        let ghost keep = Set::new(|name: Seq<char>| views(names@).contains(name));
        let mut i: usize = 0;
        proof {
            assert(by_name(full.tools@.take(0)).restrict(keep) =~= registry@);
        }
        while i < full.tools.len()
            invariant
                i <= full.tools@.len(),
                full.wf(),
                keep == Set::new(|name: Seq<char>| views(names@).contains(name)),
                names_own(full.tools@.take(i as int)),
                registry.wf(),
                registry.mcp_manager is None,
                registry@ == by_name(full.tools@.take(i as int)).restrict(keep),
            decreases full.tools@.len() - i,
        {
            let ghost at = registry@;
            proof {
                let front = full.tools@.take(i as int);
                let entry = full.tools@[i as int];
                assert(!has_name(front, entry.name@)) by {
                    assert forall|j: int| 0 <= j < front.len() implies (
                    #[trigger] front[j]).name@ != entry.name@ by {
                        assert(full.tools@[j].name@ != full.tools@[i as int].name@);
                    }
                }
                lemma_by_name_pushed(front, entry);
                assert(full.tools@.take(i + 1) =~= front.push(entry));
            }
            if holds_text(names, full.tools[i].name.as_str()) {
                registry.register_arc(share(&full.tools[i].tool));
            }
            proof {
                assert(registry@ =~= by_name(full.tools@.take(i + 1)).restrict(keep));
            }
            i += 1;
        }
        proof {
            assert(full.tools@.take(i as int) =~= full.tools@);
            assert(registry@ =~= named_tools(all_tools@, views(names@)));
        }
        registry
    }
}

/// Nothing is missing exactly where everything is there.
pub proof fn lemma_missing_none_iff_has_all<T: AgentTool, M>(
    registry: ToolRegistry<T, M>,
    required: Seq<&str>,
)
    ensures
        (required.filter(|name: &str| !registry@.contains_key(name@)).len() == 0) == (forall|i: int|
            0 <= i < required.len() ==> registry@.contains_key((#[trigger] required[i])@)),
    decreases required.len(),
{
    let p = |name: &str| !registry@.contains_key(name@);
    reveal(Seq::filter);
    if required.len() > 0 {
        let front = required.drop_last();
        lemma_missing_none_iff_has_all(registry, front);
        assert forall|i: int| 0 <= i < front.len() implies front[i] == required[i] by {}
        if forall|i: int|
            0 <= i < required.len() ==> registry@.contains_key((#[trigger] required[i])@) {
            assert(registry@.contains_key(required[required.len() - 1]@));
            assert forall|i: int| 0 <= i < front.len() implies registry@.contains_key(
                (#[trigger] front[i])@,
            ) by {
                assert(registry@.contains_key(required[i]@));
            }
        }
        if required.filter(p).len() == 0 {
            assert forall|i: int| 0 <= i < required.len() implies registry@.contains_key(
                (#[trigger] required[i])@,
            ) by {
                if i < front.len() {
                    assert(registry@.contains_key(front[i]@));
                }
            }
        }
    }
}

/// Every offered name is that of a tool in the list that is selected.
pub proof fn lemma_offered_is_selected<T: AgentTool>(
    all_tools: Seq<Arc<T>>,
    disabled: Seq<Seq<char>>,
    name: Seq<char>,
)
    requires
        offered(all_tools, disabled).contains_key(name),
    ensures
        exists|i: int|
            0 <= i < all_tools.len() && #[trigger] all_tools[i] == offered(all_tools, disabled)[name]
                && all_tools[i].name_view() == name && selected(all_tools[i], disabled),
    decreases all_tools.len(),
{
    let last = all_tools.last();
    if selected(last, disabled) && last.name_view() == name {
        assert(all_tools[all_tools.len() - 1] == last);
    } else {
        lemma_offered_is_selected(all_tools.drop_last(), disabled, name);
        let i = choose|i: int|
            0 <= i < all_tools.drop_last().len() && #[trigger] all_tools.drop_last()[i] == offered(
                all_tools.drop_last(),
                disabled,
            )[name] && all_tools.drop_last()[i].name_view() == name && selected(
                all_tools.drop_last()[i],
                disabled,
            );
        assert(all_tools[i] == all_tools.drop_last()[i]);
    }
}

/// Every selected tool's name is offered.
pub proof fn lemma_selected_is_offered<T: AgentTool>(
    all_tools: Seq<Arc<T>>,
    disabled: Seq<Seq<char>>,
    i: int,
)
    requires
        0 <= i < all_tools.len(),
        selected(all_tools[i], disabled),
    ensures
        offered(all_tools, disabled).contains_key(all_tools[i].name_view()),
    decreases all_tools.len(),
{
    if i < all_tools.len() - 1 {
        assert(all_tools.drop_last()[i] == all_tools[i]);
        lemma_selected_is_offered(all_tools.drop_last(), disabled, i);
    }
}

/// Where the web search is turned off, the cached search results are not offered.
pub proof fn lemma_search_results_follow_web_search<T: AgentTool>(
    all_tools: Seq<Arc<T>>,
    disabled: Seq<Seq<char>>,
)
    requires
        disabled.contains("web_search"@),
    ensures
        !offered(all_tools, disabled).contains_key("get_search_results"@),
{
    if offered(all_tools, disabled).contains_key("get_search_results"@) {
        lemma_offered_is_selected(all_tools, disabled, "get_search_results"@);
    }
}

/// An essential tool is offered whatever is turned off; the cached search results are
/// the one exception, and only where the web search is turned off.
pub proof fn lemma_essential_is_offered<T: AgentTool>(
    all_tools: Seq<Arc<T>>,
    disabled: Seq<Seq<char>>,
    i: int,
)
    requires
        0 <= i < all_tools.len(),
        all_tools[i].essential_view(),
        all_tools[i].name_view() != "get_search_results"@ || !disabled.contains("web_search"@),
    ensures
        offered(all_tools, disabled).contains_key(all_tools[i].name_view()),
{
    lemma_selected_is_offered(all_tools, disabled, i);
}

/// A name that is turned off is offered only for an essential tool.
pub proof fn lemma_disabled_is_not_offered<T: AgentTool>(
    all_tools: Seq<Arc<T>>,
    disabled: Seq<Seq<char>>,
    name: Seq<char>,
)
    requires
        disabled.contains(name),
        forall|i: int|
            0 <= i < all_tools.len() && (#[trigger] all_tools[i]).name_view() == name
                ==> !all_tools[i].essential_view(),
    ensures
        !offered(all_tools, disabled).contains_key(name),
{
    if offered(all_tools, disabled).contains_key(name) {
        lemma_offered_is_selected(all_tools, disabled, name);
    }
}

/// A tool is offered under its name exactly where it is essential or its name is not turned
/// off, and it is not the cached search results of a web search that is turned off. Of two
/// such tools with one name the later in the list is offered.
pub proof fn lemma_last_tool_is_offered<T: AgentTool>(
    all_tools: Seq<Arc<T>>,
    disabled: Seq<Seq<char>>,
    i: int,
)
    requires
        0 <= i < all_tools.len(),
        forall|j: int|
            i < j < all_tools.len() ==> (#[trigger] all_tools[j]).name_view()
                != all_tools[i].name_view(),
    ensures
        ({
            let name = all_tools[i].name_view();
            let off = disabled.contains(name) && !all_tools[i].essential_view();
            let stale = name == "get_search_results"@ && disabled.contains("web_search"@);
            &&& !off && !stale ==> offered(all_tools, disabled).contains_key(name) && offered(
                all_tools,
                disabled,
            )[name] == all_tools[i]
            &&& (off || stale) && (forall|j: int|
                0 <= j < i ==> (#[trigger] all_tools[j]).name_view() != name) ==> !offered(
                all_tools,
                disabled,
            ).contains_key(name)
        }),
    decreases all_tools.len(),
{
    let name = all_tools[i].name_view();
    let front = all_tools.drop_last();
    if i < all_tools.len() - 1 {
        assert(front[i] == all_tools[i]);
        assert forall|j: int| i < j < front.len() implies (#[trigger] front[j]).name_view()
            != front[i].name_view() by {
            assert(front[j] == all_tools[j]);
        }
        assert(all_tools[all_tools.len() - 1].name_view() != name);
        lemma_last_tool_is_offered(front, disabled, i);
        if forall|j: int| 0 <= j < i ==> (#[trigger] all_tools[j]).name_view() != name {
            assert forall|j: int| 0 <= j < i implies (#[trigger] front[j]).name_view() != name by {
                assert(front[j] == all_tools[j]);
            }
        }
    } else if (forall|j: int| 0 <= j < i ==> (#[trigger] all_tools[j]).name_view() != name)
        && offered(all_tools, disabled).contains_key(name) {
        lemma_offered_is_selected(all_tools, disabled, name);
    }
}

/// Of the named tools each is there exactly where its name is asked for and a tool of that
/// name is in the list; cached search results need nothing more. Of two with one name the
/// later is there.
pub proof fn lemma_named_tools_are_listed<T: AgentTool>(
    all_tools: Seq<Arc<T>>,
    names: Seq<Seq<char>>,
    name: Seq<char>,
)
    ensures
        named_tools(all_tools, names).contains_key(name) <==> names.contains(name) && exists|
            i: int,
        | 0 <= i < all_tools.len() && (#[trigger] all_tools[i]).name_view() == name,
        forall|i: int|
            0 <= i < all_tools.len() && (#[trigger] all_tools[i]).name_view() == name
                && names.contains(name) && (forall|j: int|
                i < j < all_tools.len() ==> (#[trigger] all_tools[j]).name_view() != name)
                ==> named_tools(all_tools, names)[name] == all_tools[i],
{
    let none = Seq::<Seq<char>>::empty();
    let all = offered(all_tools, none);
    if all.contains_key(name) {
        lemma_offered_is_selected(all_tools, none, name);
    }
    assert forall|i: int|
        0 <= i < all_tools.len() && (#[trigger] all_tools[i]).name_view() == name implies
        all.contains_key(name) by {
        lemma_selected_is_offered(all_tools, none, i);
    }
    assert forall|i: int|
        0 <= i < all_tools.len() && (#[trigger] all_tools[i]).name_view() == name
            && names.contains(name) && (forall|j: int|
            i < j < all_tools.len() ==> (#[trigger] all_tools[j]).name_view() != name) implies
        named_tools(all_tools, names)[name] == all_tools[i] by {
        lemma_last_tool_is_offered(all_tools, none, i);
    }
}

} // verus!
