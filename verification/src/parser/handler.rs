//! Custom handlers: commands run when a button with their name is pressed.

use vstd::prelude::*;

use crate::text::str_equal;

verus! {

/// A custom handler: the callback name it answers and the command it runs.
#[derive(Debug, Clone, PartialEq, Eq)]
pub struct HandlerConfig {
    pub name: String,
    pub command: String,
    pub args: Vec<String>,
}

/// Entry `i` of `configs` is the handler named `name`.
pub open spec fn named_at(configs: Seq<HandlerConfig>, name: Seq<char>, i: int) -> bool {
    0 <= i < configs.len() && configs[i].name@ == name
}

/// No two handlers in `configs` share a name.
pub open spec fn names_distinct(configs: Seq<HandlerConfig>) -> bool {
    forall|i: int, j: int|
        0 <= i < configs.len() && 0 <= j < configs.len() && i != j ==> #[trigger] configs[i].name@
            != #[trigger] configs[j].name@
}

/// The handler named `name` in `configs`, if any.
pub open spec fn config_lookup(configs: Seq<HandlerConfig>, name: Seq<char>) -> Option<HandlerConfig> {
    if exists|i: int| named_at(configs, name, i) {
        Some(configs[choose|i: int| named_at(configs, name, i)])
    } else {
        None
    }
}

/// The number of distinct names among `configs`.
pub open spec fn distinct_names(configs: Seq<HandlerConfig>) -> nat
    decreases configs.len(),
{
    if configs.len() == 0 {
        0
    } else if last_named(configs.drop_last(), configs.last().name@) is Some {
        distinct_names(configs.drop_last())
    } else {
        distinct_names(configs.drop_last()) + 1
    }
}

/// The last handler named `name` in `configs`, if any: the one that a
/// registry filled in that order keeps.
pub open spec fn last_named(configs: Seq<HandlerConfig>, name: Seq<char>) -> Option<HandlerConfig>
    decreases configs.len(),
{
    if configs.len() == 0 {
        None
    } else if configs.last().name@ == name {
        Some(configs.last())
    } else {
        last_named(configs.drop_last(), name)
    }
}

proof fn lemma_distinct_lookup_at(configs: Seq<HandlerConfig>, i: int)
    requires
        names_distinct(configs),
        0 <= i < configs.len(),
    ensures
        config_lookup(configs, configs[i].name@) == Some(configs[i]),
{
    assert(named_at(configs, configs[i].name@, i));
}

proof fn lemma_replace_named(configs: Seq<HandlerConfig>, i: int, h: HandlerConfig)
    requires
        names_distinct(configs),
        0 <= i < configs.len(),
        configs[i].name@ == h.name@,
    ensures
        names_distinct(configs.update(i, h)),
        config_lookup(configs.update(i, h), h.name@) == Some(h),
        forall|k: Seq<char>| k != h.name@ ==> config_lookup(configs.update(i, h), k) == config_lookup(configs, k),
{
    let new = configs.update(i, h);
    assert forall|a: int, b: int|
        0 <= a < new.len() && 0 <= b < new.len() && a != b implies #[trigger] new[a].name@
        != #[trigger] new[b].name@ by {
        assert(configs[a].name@ != configs[b].name@);
    }
    lemma_distinct_lookup_at(new, i);
    assert forall|k: Seq<char>| k != h.name@ implies config_lookup(new, k) == config_lookup(configs, k) by {
        if exists|j: int| named_at(configs, k, j) {
            let j = choose|j: int| named_at(configs, k, j);
            lemma_distinct_lookup_at(configs, j);
            lemma_distinct_lookup_at(new, j);
        } else if exists|j: int| named_at(new, k, j) {
            let j = choose|j: int| named_at(new, k, j);
            assert(named_at(configs, k, j));
        }
    }
}

proof fn lemma_push_named(configs: Seq<HandlerConfig>, h: HandlerConfig)
    requires
        names_distinct(configs),
        forall|j: int| 0 <= j < configs.len() ==> configs[j].name@ != h.name@,
    ensures
        names_distinct(configs.push(h)),
        config_lookup(configs.push(h), h.name@) == Some(h),
        forall|k: Seq<char>| k != h.name@ ==> config_lookup(configs.push(h), k) == config_lookup(configs, k),
{
    let new = configs.push(h);
    assert forall|a: int, b: int|
        0 <= a < new.len() && 0 <= b < new.len() && a != b implies #[trigger] new[a].name@
        != #[trigger] new[b].name@ by {
        if a < configs.len() && b < configs.len() {
            assert(configs[a].name@ != configs[b].name@);
        }
    }
    lemma_distinct_lookup_at(new, configs.len() as int);
    assert forall|k: Seq<char>| k != h.name@ implies config_lookup(new, k) == config_lookup(configs, k) by {
        if exists|j: int| named_at(configs, k, j) {
            let j = choose|j: int| named_at(configs, k, j);
            lemma_distinct_lookup_at(configs, j);
            lemma_distinct_lookup_at(new, j);
        } else if exists|j: int| named_at(new, k, j) {
            let j = choose|j: int| named_at(new, k, j);
            assert(named_at(configs, k, j));
        }
    }
}

/// The custom handlers, at most one per name.
#[derive(Debug, PartialEq, Eq)]
pub struct HandlerRegistry {
    handlers: Vec<HandlerConfig>,
}

impl HandlerRegistry {
    /// The handlers held, in the order they were first added.
    pub closed spec fn configs(&self) -> Seq<HandlerConfig> {
        self.handlers@
    }

    #[verifier::type_invariant]
    pub open spec fn wf(&self) -> bool {
        names_distinct(self.configs())
    }

    /// The handler registered under `name`, if any.
    pub open spec fn handler(&self, name: Seq<char>) -> Option<HandlerConfig> {
        config_lookup(self.configs(), name)
    }

    /// An empty registry.
    pub fn new() -> (r: HandlerRegistry)
        ensures
            forall|k: Seq<char>| r.handler(k) is None,
            r.configs().len() == 0,
    {
        HandlerRegistry { handlers: Vec::new() }
    }

    /// The number of handlers.
    pub fn len(&self) -> (n: usize)
        ensures
            n == self.configs().len(),
    {
        self.handlers.len()
    }

    /// Finds the handler registered under `name`.
    pub fn get(&self, name: &str) -> (r: Option<&HandlerConfig>)
        ensures
            match r {
                Some(h) => self.handler(name@) == Some(*h),
                None => self.handler(name@) is None,
            },
    {
        proof {
            use_type_invariant(self);
        }
        let n = self.handlers.len();
        let mut i: usize = 0;
        while i < n
            invariant
                n == self.configs().len(),
                names_distinct(self.configs()),
                i <= n,
                forall|j: int| 0 <= j < i ==> self.configs()[j].name@ != name@,
            decreases n - i,
        {
            if str_equal(self.handlers[i].name.as_str(), name) {
                proof {
                    lemma_distinct_lookup_at(self.configs(), i as int);
                }
                return Some(&self.handlers[i]);
            }
            i = i + 1;
        }
        None
    }

    /// Tells whether a handler is registered under `name`.
    pub fn contains_key(&self, name: &str) -> (b: bool)
        ensures
            b == (self.handler(name@) is Some),
    {
        self.get(name).is_some()
    }

    /// Registers `handler` under its name, replacing the one registered there.
    pub fn insert(&mut self, handler: HandlerConfig)
        ensures
            final(self).handler(handler.name@) == Some(handler),
            final(self).configs().len() == old(self).configs().len() + if old(self).handler(
                handler.name@,
            ) is Some {
                0int
            } else {
                1int
            },
            forall|k: Seq<char>| k != handler.name@ ==> final(self).handler(k) == old(self).handler(k),
    {
        proof {
            use_type_invariant(&*self);
        }
        let ghost old_configs = self.configs();
        let n = self.handlers.len();
        let mut i: usize = 0;
        while i < n && !str_equal(self.handlers[i].name.as_str(), handler.name.as_str())
            invariant
                n == self.configs().len(),
                self.configs() == old_configs,
                i <= n,
                forall|j: int| 0 <= j < i ==> old_configs[j].name@ != handler.name@,
            decreases n - i,
        {
            i = i + 1;
        }
        let ghost h = handler;
        let mut handlers: Vec<HandlerConfig> = Vec::new();
        std::mem::swap(&mut handlers, &mut self.handlers);
        if i < n {
            proof {
                lemma_replace_named(old_configs, i as int, h);
                assert(named_at(old_configs, h.name@, i as int));
            }
            handlers.set(i, handler);
        } else {
            proof {
                lemma_push_named(old_configs, h);
                assert(!exists|j: int| named_at(old_configs, h.name@, j));
            }
            handlers.push(handler);
        }
        self.handlers = handlers;
    }

    /// The registry of `configs` added in order, a later handler replacing an
    /// earlier one of the same name.
    pub fn from_configs(configs: Vec<HandlerConfig>) -> (r: HandlerRegistry)
        ensures
            forall|k: Seq<char>| r.handler(k) == last_named(configs@, k),
            r.configs().len() == distinct_names(configs@),
    {
        let ghost all = configs@;
        let total = configs.len();
        let mut registry = HandlerRegistry::new();
        let mut rest = configs;
        let mut i: usize = 0;
        while rest.len() > 0
            invariant
                rest@ == all.skip(i as int),
                all.len() == total,
                i <= total,
                forall|k: Seq<char>| registry.handler(k) == last_named(all.take(i as int), k),
                registry.configs().len() == distinct_names(all.take(i as int)),
            decreases rest.len(),
        {
            let h = rest.remove(0);
            assert(all.take(i + 1).drop_last() =~= all.take(i as int));
            assert(all.take(i + 1).last() == h);
            assert(rest@ =~= all.skip(i + 1));
            registry.insert(h);
            i = i + 1;
        }
        assert(all.take(i as int) =~= all);
        registry
    }
}

} // verus!
