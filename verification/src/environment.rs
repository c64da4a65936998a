use vstd::prelude::*;
use crate::object::{Object, ObjectModel};
use crate::text::{str_eq, texts_of};

verus! {

/// An environment as a mathematical value: the names bound in it, and the number of the
/// environment that encloses it.
pub struct EnvModel {
    pub store: Map<Seq<char>, ObjectModel>,
    pub outer: Option<int>,
}

/// The state of an evaluation as a mathematical value: the environments made so far, by
/// number, and the lines written so far.
pub struct MachineModel {
    pub envs: Seq<EnvModel>,
    pub output: Seq<Seq<char>>,
}

/// The value that `name` has in environment `id`: the one bound there or, failing that, in
/// the nearest enclosing environment that binds it. An environment is enclosed only by one
/// that was made before it.
pub open spec fn lookup(envs: Seq<EnvModel>, id: int, name: Seq<char>) -> Option<ObjectModel>
    decreases id,
{
    if 0 <= id < envs.len() {
        if envs[id].store.contains_key(name) {
            Some(envs[id].store[name])
        } else {
            match envs[id].outer {
                Some(o) => if 0 <= o < id {
                    lookup(envs, o, name)
                } else {
                    None
                },
                None => None,
            }
        }
    } else {
        None
    }
}

/// The value that `name` has for an environment that need not have a number itself.
pub open spec fn env_lookup(e: EnvModel, envs: Seq<EnvModel>, name: Seq<char>) -> Option<
    ObjectModel,
> {
    if e.store.contains_key(name) {
        Some(e.store[name])
    } else {
        match e.outer {
            Some(o) => lookup(envs, o, name),
            None => None,
        }
    }
}

/// The state after `name` is bound to `value` in environment `env`; nothing is bound where
/// there is no such environment.
pub open spec fn bind(st: MachineModel, env: int, name: Seq<char>, value: ObjectModel)
    -> MachineModel {
    if 0 <= env < st.envs.len() {
        MachineModel {
            envs: st.envs.update(
                env,
                EnvModel {
                    store: st.envs[env].store.insert(name, value),
                    outer: st.envs[env].outer,
                },
            ),
            output: st.output,
        }
    } else {
        st
    }
}

/// The mapping that a list of bindings stands for: a later binding of a name replaces an
/// earlier one.
pub open spec fn bindings_map(s: Seq<(String, Object)>) -> Map<Seq<char>, ObjectModel>
    decreases s.len(),
{
    if s.len() == 0 {
        Map::empty()
    } else {
        bindings_map(s.drop_last()).insert(s.last().0@, s.last().1@)
    }
}

proof fn lemma_bindings_found(s: Seq<(String, Object)>, name: Seq<char>, i: int)
    requires
        0 <= i < s.len(),
        s[i].0@ == name,
        forall|j: int| i < j < s.len() ==> (#[trigger] s[j]).0@ != name,
    ensures
        bindings_map(s).contains_key(name),
        bindings_map(s)[name] == s[i].1@,
    decreases s.len(),
{
    if i < s.len() - 1 {
        lemma_bindings_found(s.drop_last(), name, i);
    }
}

proof fn lemma_bindings_absent(s: Seq<(String, Object)>, name: Seq<char>)
    requires
        forall|j: int| 0 <= j < s.len() ==> (#[trigger] s[j]).0@ != name,
    ensures
        !bindings_map(s).contains_key(name),
    decreases s.len(),
{
    if s.len() > 0 {
        lemma_bindings_absent(s.drop_last(), name);
    }
}

/// A mapping from names to values, with the number of the enclosing environment if it has
/// one.
#[derive(Debug)]
pub struct Environment {
    store: Vec<(String, Object)>,
    outer: Option<usize>,
}

impl View for Environment {
    type V = EnvModel;

    closed spec fn view(&self) -> EnvModel {
        EnvModel {
            store: bindings_map(self.store@),
            outer: match self.outer {
                Some(o) => Some(o as int),
                None => None,
            },
        }
    }
}

impl Environment {
    /// An environment that binds nothing and is enclosed by none.
    pub fn new() -> (e: Environment)
        ensures
            e@ == (EnvModel { store: Map::empty(), outer: None }),
    {
        Environment { store: Vec::new(), outer: None }
    }

    /// The value bound to `name` in this environment itself.
    pub fn get_local(&self, name: &String) -> (r: Option<Object>)
        ensures
            match r {
                Some(o) => self@.store.contains_key(name@) && o@ == self@.store[name@],
                None => !self@.store.contains_key(name@),
            },
    {
        let mut i: usize = self.store.len();
        while i > 0
            invariant
                i <= self.store.len(),
                forall|j: int|
                    i <= j < self.store.len() ==> (#[trigger] self.store@[j]).0@ != name@,
            decreases i,
        {
            i -= 1;
            if str_eq(self.store[i].0.as_str(), name.as_str()) {
                proof {
                    lemma_bindings_found(self.store@, name@, i as int);
                }
                return Some(self.store[i].1.clone());
            }
        }
        proof {
            lemma_bindings_absent(self.store@, name@);
        }
        None
    }

    /// The number of the enclosing environment.
    pub fn outer(&self) -> (r: Option<usize>)
        ensures
            match r {
                Some(o) => self@.outer == Some(o as int),
                None => self@.outer is None,
            },
    {
        self.outer
    }

    /// The value of `name`: the one bound here or, failing that, in the nearest of the
    /// enclosing environments, which `machine` holds.
    pub fn get(&self, name: &String, machine: &Machine) -> (r: Option<Object>)
        ensures
            match r {
                Some(o) => env_lookup(self@, machine@.envs, name@) == Some(o@),
                None => env_lookup(self@, machine@.envs, name@) is None,
            },
    {
        match self.get_local(name) {
            Some(o) => Some(o),
            None => match self.outer {
                Some(outer) => machine.get(outer, name),
                None => None,
            },
        }
    }

    /// Binds `name` to `obj` in this environment; enclosing environments are not touched.
    pub fn set(&mut self, name: String, obj: Object)
        ensures
            final(self)@ == (EnvModel {
                store: old(self)@.store.insert(name@, obj@),
                outer: old(self)@.outer,
            }),
    {
        self.store.push((name, obj));
        proof {
            assert(final(self).store@.drop_last() =~= old(self).store@);
        }
    }
}

/// An environment that binds nothing yet and is enclosed by environment number `outer_env`.
pub fn enclosed_environment(outer_env: usize) -> (e: Environment)
    ensures
        e@ == (EnvModel { store: Map::empty(), outer: Some(outer_env as int) }),
{
    Environment { store: Vec::new(), outer: Some(outer_env) }
}

/// What an evaluation keeps: the environments, each known by the number it got when it was
/// added, and the lines written by `puts`.
#[derive(Debug)]
pub struct Machine {
    envs: Vec<Environment>,
    output: Vec<String>,
}

/// The models of a list of environments.
pub open spec fn envs_model(s: Seq<Environment>) -> Seq<EnvModel> {
    Seq::new(s.len(), |i: int| s[i]@)
}

impl View for Machine {
    type V = MachineModel;

    closed spec fn view(&self) -> MachineModel {
        MachineModel { envs: envs_model(self.envs@), output: texts_of(self.output@) }
    }
}

impl Machine {
    /// A machine without environments and without output.
    pub fn new() -> (m: Machine)
        ensures
            m@ == (MachineModel { envs: Seq::empty(), output: Seq::empty() }),
    {
        let m = Machine { envs: Vec::new(), output: Vec::new() };
        assert(m@.envs =~= Seq::empty());
        assert(m@.output =~= Seq::empty());
        m
    }

    /// The number of environments.
    pub fn len(&self) -> (r: usize)
        ensures
            r == self@.envs.len(),
    {
        self.envs.len()
    }

    /// Adds an environment and returns its number.
    pub fn add(&mut self, env: Environment) -> (id: usize)
        ensures
            id == old(self)@.envs.len(),
            final(self)@ == (MachineModel {
                envs: old(self)@.envs.push(env@),
                output: old(self)@.output,
            }),
    {
        let id = self.envs.len();
        self.envs.push(env);
        proof {
            assert(final(self)@.envs =~= old(self)@.envs.push(env@));
        }
        id
    }

    /// The value that `name` has in environment `id`.
    pub fn get(&self, id: usize, name: &String) -> (r: Option<Object>)
        ensures
            match r {
                Some(o) => lookup(self@.envs, id as int, name@) == Some(o@),
                None => lookup(self@.envs, id as int, name@) is None,
            },
    {
        let mut cur: usize = id;
        loop
            invariant
                lookup(self@.envs, cur as int, name@) == lookup(self@.envs, id as int, name@),
            decreases cur,
        {
            if cur >= self.envs.len() {
                return None;
            }
            match self.envs[cur].get_local(name) {
                Some(o) => {
                    return Some(o);
                },
                None => {},
            }
            match self.envs[cur].outer {
                Some(o) => {
                    if o < cur {
                        cur = o;
                    } else {
                        return None;
                    }
                },
                None => {
                    return None;
                },
            }
        }
    }

    /// Binds `name` to `obj` in environment `id`, and in no other.
    pub fn set(&mut self, id: usize, name: String, obj: Object)
        ensures
            final(self)@ == bind(old(self)@, id as int, name@, obj@),
    {
        if id < self.envs.len() {
            self.envs[id].set(name, obj);
            proof {
                assert(final(self)@.envs =~= old(self)@.envs.update(
                    id as int,
                    EnvModel {
                        store: old(self)@.envs[id as int].store.insert(name@, obj@),
                        outer: old(self)@.envs[id as int].outer,
                    },
                ));
            }
        }
    }

    /// Appends a line to the output.
    pub fn write_line(&mut self, line: String)
        ensures
            final(self)@ == (MachineModel {
                envs: old(self)@.envs,
                output: old(self)@.output.push(line@),
            }),
    {
        self.output.push(line);
        proof {
            assert(final(self)@.output =~= old(self)@.output.push(line@));
        }
    }

    /// The lines written so far, oldest first.
    pub fn output(&self) -> (r: &Vec<String>)
        ensures
            texts_of(r@) == self@.output,
    {
        &self.output
    }
}

} // verus!
