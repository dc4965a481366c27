//! Command modules and their registry: each module answers to one command
//! word, taken from the module when it is registered; registering under a
//! command that is taken replaces the module there.
use vstd::prelude::*;
use crate::text;

verus! {

/// A module that answers to a command word. Implementations decide what
/// the methods return; each method returns its spec function's value, so
/// that the registry can say which command, name and description it used.
pub trait Module {
    /// The command word, as a value.
    spec fn spec_command(&self) -> Seq<char>;

    /// The display name, as a value.
    spec fn spec_name(&self) -> Seq<char>;

    /// The description, as a value.
    spec fn spec_description(&self) -> Seq<char>;

    /// The command word.
    fn command(&self) -> (r: &str)
        ensures
            r@ == self.spec_command(),
    ;

    /// The display name.
    fn name(&self) -> (r: &str)
        ensures
            r@ == self.spec_name(),
    ;

    /// The one-line description.
    fn description(&self) -> (r: &str)
        ensures
            r@ == self.spec_description(),
    ;
}

/// A module described by its three texts.
pub struct CommandModule {
    pub command: String,
    pub name: String,
    pub description: String,
}

impl Module for CommandModule {
    open spec fn spec_command(&self) -> Seq<char> {
        self.command@
    }

    open spec fn spec_name(&self) -> Seq<char> {
        self.name@
    }

    open spec fn spec_description(&self) -> Seq<char> {
        self.description@
    }

    fn command(&self) -> (r: &str) {
        self.command.as_str()
    }

    fn name(&self) -> (r: &str) {
        self.name.as_str()
    }

    fn description(&self) -> (r: &str) {
        self.description.as_str()
    }
}

/// The module registered under command `c` in the entries `s`.
pub open spec fn lookup<M>(s: Seq<(Seq<char>, M)>, c: Seq<char>) -> Option<M>
    decreases s.len(),
{
    if s.len() == 0 {
        None
    } else if s[0].0 == c {
        Some(s[0].1)
    } else {
        lookup(s.drop_first(), c)
    }
}

/// No two entries share a command.
pub open spec fn commands_distinct<M>(s: Seq<(Seq<char>, M)>) -> bool {
    forall|i: int, j: int| 0 <= i < j < s.len() ==> #[trigger] s[i].0 != #[trigger] s[j].0
}

/// The entries after registering `m` under `c`: in place of the entry with
/// that command, or added at the end.
pub open spec fn registered<M>(s: Seq<(Seq<char>, M)>, c: Seq<char>, m: M) -> Seq<(Seq<char>, M)> {
    if exists|i: int| 0 <= i < s.len() && #[trigger] s[i].0 == c {
        s.update(choose|i: int| 0 <= i < s.len() && #[trigger] s[i].0 == c, (c, m))
    } else {
        s.push((c, m))
    }
}

/// The modules, by command.
pub struct ModuleRegistry<M: Module> {
    modules: Vec<(String, M)>,
}

pub open spec fn entry_views<M>(v: Seq<(String, M)>) -> Seq<(Seq<char>, M)> {
    v.map_values(|e: (String, M)| (e.0@, e.1))
}

impl<M: Module> ModuleRegistry<M> {
    /// The entries, by command, in registration order.
    pub closed spec fn entries(&self) -> Seq<(Seq<char>, M)> {
        entry_views(self.modules@)
    }
}

impl<M: Module> View for ModuleRegistry<M> {
    type V = Seq<(Seq<char>, M)>;

    open spec fn view(&self) -> Seq<(Seq<char>, M)> {
        self.entries()
    }
}

/// `lookup` finds a module exactly when an entry has the command, and then
/// that entry's module when commands are distinct.
proof fn lemma_lookup<M>(s: Seq<(Seq<char>, M)>, c: Seq<char>)
    requires
        commands_distinct(s),
    ensures
        lookup(s, c) is None <==> forall|i: int| 0 <= i < s.len() ==> s[i].0 != c,
        forall|i: int| 0 <= i < s.len() && s[i].0 == c ==> lookup(s, c) == Some(s[i].1),
    decreases s.len(),
{
    if s.len() > 0 {
        let t = s.drop_first();
        assert(commands_distinct(t)) by {
            assert forall|i: int, j: int| 0 <= i < j < t.len() implies #[trigger] t[i].0 != #[trigger] t[j].0 by {
                assert(t[i] == s[i + 1] && t[j] == s[j + 1]);
            }
        }
        lemma_lookup(t, c);
        assert forall|i: int| 0 <= i < s.len() && s[i].0 == c implies lookup(s, c) == Some(s[i].1) by {
            if i > 0 {
                assert(t[i - 1] == s[i]);
                assert(s[0].0 != s[i].0);
            }
        }
        if lookup(s, c) is None {
            assert forall|i: int| 0 <= i < s.len() implies s[i].0 != c by {
                if i > 0 {
                    assert(t[i - 1] == s[i]);
                }
            }
        }
    }
}

proof fn lemma_registered_distinct<M>(s: Seq<(Seq<char>, M)>, c: Seq<char>, m: M)
    requires
        commands_distinct(s),
    ensures
        commands_distinct(registered(s, c, m)),
{
    let r = registered(s, c, m);
    if exists|i: int| 0 <= i < s.len() && #[trigger] s[i].0 == c {
        let k = choose|i: int| 0 <= i < s.len() && #[trigger] s[i].0 == c;
        assert forall|a: int, b: int| 0 <= a < b < r.len() implies #[trigger] r[a].0 != #[trigger] r[b].0 by {
            if a == k {
                assert(r[b] == s[b]);
            } else if b == k {
                assert(r[a] == s[a]);
            } else {
                assert(r[a] == s[a] && r[b] == s[b]);
            }
        }
    } else {
        assert forall|a: int, b: int| 0 <= a < b < r.len() implies #[trigger] r[a].0 != #[trigger] r[b].0 by {
            assert(r[a] == s[a]);
            if b < s.len() {
                assert(r[b] == s[b]);
            }
        }
    }
}

impl<M: Module> ModuleRegistry<M> {
    /// Commands are distinct.
    pub closed spec fn wf(&self) -> bool {
        commands_distinct(self@)
    }

    /// A well-formed registry has no two entries with one command.
    pub proof fn lemma_wf_commands_distinct(&self)
        requires
            self.wf(),
        ensures
            commands_distinct(self@),
    {
    }

    /// No modules.
    pub fn new() -> (r: Self)
        ensures
            r.wf(),
            r@ == Seq::<(Seq<char>, M)>::empty(),
    {
        let r = ModuleRegistry { modules: Vec::new() };
        assert(r@ == Seq::<(Seq<char>, M)>::empty());
        r
    }

    /// Position of the entry with command `c`, if any.
    fn position(&self, c: &str) -> (r: Option<usize>)
        ensures
            r matches Some(i) ==> i < self@.len() && self@[i as int].0 == c@,
            r is None ==> forall|i: int| 0 <= i < self@.len() ==> self@[i].0 != c@,
    {
        let mut i: usize = 0;
        while i < self.modules.len()
            invariant
                i <= self.modules@.len(),
                self@ == entry_views(self.modules@),
                forall|k: int| 0 <= k < i ==> self@[k].0 != c@,
            decreases self.modules.len() - i,
        {
            let mine = text::chars_of(self.modules[i].0.as_str());
            if text::eq_str(&mine, c) {
                return Some(i);
            }
            i += 1;
        }
        None
    }

    /// Register `module` under `command`, replacing any module there.
    pub fn register_as(&mut self, command: String, module: M)
        requires
            old(self).wf(),
        ensures
            final(self).wf(),
            final(self)@ == registered(old(self)@, command@, module),
    {
        let ghost c = command@;
        let ghost before = self@;
        proof {
            lemma_registered_distinct(before, c, module);
        }
        match self.position(command.as_str()) {
            Some(i) => {
                proof {
                    lemma_lookup(before, c);
                    let k = choose|j: int| 0 <= j < before.len() && #[trigger] before[j].0 == c;
                    assert(before[k].0 == c && before[i as int].0 == c);
                    assert(k == i as int);
                }
                self.modules.set(i, (command, module));
                assert(self@ == before.update(i as int, (c, module)));
            },
            None => {
                self.modules.push((command, module));
                assert(self@ == before.push((c, module)));
            },
        }
    }

    /// Register `module` under the command it reports, replacing any module
    /// there.
    pub fn register(&mut self, module: M)
        requires
            old(self).wf(),
        ensures
            final(self).wf(),
            final(self)@ == registered(old(self)@, module.spec_command(), module),
    {
        let c = module.command().to_owned();
        self.register_as(c, module);
    }

    /// The module registered under `command`.
    pub fn get(&self, command: &str) -> (r: Option<&M>)
        requires
            self.wf(),
        ensures
            r matches Some(m) ==> lookup(self@, command@) == Some(*m),
            r is None ==> lookup(self@, command@) is None,
    {
        proof {
            lemma_lookup(self@, command@);
        }
        match self.position(command) {
            Some(i) => Some(&self.modules[i].1),
            None => None,
        }
    }

    /// The registered commands, in registration order.
    pub fn all_commands(&self) -> (r: Vec<String>)
        ensures
            r@.len() == self@.len(),
            forall|i: int| 0 <= i < r@.len() ==> #[trigger] r@[i]@ == self@[i].0,
    {
        let mut out: Vec<String> = Vec::new();
        let mut i: usize = 0;
        while i < self.modules.len()
            invariant
                i <= self.modules@.len(),
                self@ == entry_views(self.modules@),
                out@.len() == i,
                forall|k: int| 0 <= k < i ==> #[trigger] out@[k]@ == self@[k].0,
            decreases self.modules.len() - i,
        {
            out.push(self.modules[i].0.clone());
            i += 1;
        }
        out
    }

    /// Command, name and description of each module whose command starts
    /// with `prefix`, in registration order.
    pub fn search(&self, prefix: &str) -> (r: Vec<(String, String, String)>)
        ensures
            r@.map_values(|t: (String, String, String)| (t.0@, t.1@, t.2@)) == self@.filter(
                |e: (Seq<char>, M)| text::starts_with(e.0, prefix@),
            ).map_values(|e: (Seq<char>, M)| (e.0, e.1.spec_name(), e.1.spec_description())),
    {
        let ghost all = self@;
        let ghost p = |e: (Seq<char>, M)| text::starts_with(e.0, prefix@);
        let ghost f = |t: (String, String, String)| (t.0@, t.1@, t.2@);
        let ghost g = |e: (Seq<char>, M)| (e.0, e.1.spec_name(), e.1.spec_description());
        let mut out: Vec<(String, String, String)> = Vec::new();
        let mut i: usize = 0;
        while i < self.modules.len()
            invariant
                i <= self.modules@.len(),
                all == self@,
                all == entry_views(self.modules@),
                p == (|e: (Seq<char>, M)| text::starts_with(e.0, prefix@)),
                f == (|t: (String, String, String)| (t.0@, t.1@, t.2@)),
                g == (|e: (Seq<char>, M)| (e.0, e.1.spec_name(), e.1.spec_description())),
                out@.map_values(f) == all.take(i as int).filter(p).map_values(g),
            decreases self.modules.len() - i,
        {
            let v = text::chars_of(self.modules[i].0.as_str());
            let keep = text::starts_with_at(&v, 0, prefix);
            assert(v@.skip(0) == v@);
            let ghost before = out@;
            if keep {
                let m = &self.modules[i].1;
                let c = self.modules[i].0.clone();
                let n = m.name().to_owned();
                let d = m.description().to_owned();
                out.push((c, n, d));
                assert(out@.map_values(f) == before.map_values(f).push(g(all[i as int])));
            }
            proof {
                reveal(Seq::filter);
                assert(all.take(i + 1).drop_last() == all.take(i as int));
                assert(all.take(i + 1).last() == all[i as int]);
                if keep {
                    assert(all.take(i + 1).filter(p) == all.take(i as int).filter(p).push(all[i as int]));
                } else {
                    assert(all.take(i + 1).filter(p) == all.take(i as int).filter(p));
                }
            }
            i += 1;
        }
        assert(all.take(i as int) == all);
        out
    }
}

/// Registering a module makes it the one found under its command, and
/// leaves every other command's module as it was.
pub proof fn lemma_get_after_register<M>(before: Seq<(Seq<char>, M)>, m: M, c: Seq<char>, other: Seq<char>)
    requires
        commands_distinct(before),
    ensures
        lookup(registered(before, c, m), c) == Some(m),
        other != c ==> lookup(registered(before, c, m), other) == lookup(before, other),
{
    let after = registered(before, c, m);
    lemma_registered_distinct(before, c, m);
    lemma_lookup(before, other);
    lemma_lookup(after, other);
    lemma_lookup(after, c);
    if exists|i: int| 0 <= i < before.len() && #[trigger] before[i].0 == c {
        let k = choose|i: int| 0 <= i < before.len() && #[trigger] before[i].0 == c;
        assert(after[k] == (c, m));
        if other != c {
            if lookup(before, other) is None {
                assert forall|j: int| 0 <= j < after.len() implies after[j].0 != other by {
                    if j != k {
                        assert(before[j] == after[j]);
                    }
                }
            } else {
                let j = choose|j: int| 0 <= j < before.len() && before[j].0 == other;
                assert(after[j] == before[j]);
            }
        }
    } else {
        assert(after[before.len() as int] == (c, m));
        if other != c {
            if lookup(before, other) is None {
                assert forall|j: int| 0 <= j < after.len() implies after[j].0 != other by {
                    if j < before.len() {
                        assert(before[j] == after[j]);
                    }
                }
            } else {
                let j = choose|j: int| 0 <= j < before.len() && before[j].0 == other;
                assert(after[j] == before[j]);
            }
        }
    }
}

} // verus!
