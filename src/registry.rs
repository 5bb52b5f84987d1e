//! The plugin registry: the handshake of every started plugin, indexed by
//! its name.
//!
//! A plugin is known by its slot, the position at which it was registered.
//! The process behind a slot is run by the caller, who hands the registry
//! what the process answered.
use vstd::prelude::*;
use crate::formula::{formula_parts, lemma_formula_round_trip, parse_formula};
use crate::protocol::{serves, Answer, Error, PluginInfo, PluginType, Request};

verus! {

/// Why a query could not be answered.
#[derive(Clone, Debug, PartialEq, Eq)]
pub enum PluginError {
    /// The plugin's process could not be started; the text says why.
    PluginStartupFailed(String),
    /// The formula is not of the form `name(arguments)`.
    QueryParseError,
    /// No registered plugin has that name.
    UnknownPlugin,
    /// The plugin does not serve the expected capability.
    WrongType,
    /// A handshake or a response was missing or could not be read.
    BadAnswer,
    /// The plugin answered with its own error.
    PluginError(Error),
    /// Two plugins announced the same name.
    DuplicatePlugin,
}

/// What the registry knows of one plugin: its name and its capability.
pub open spec fn entry_of(info: PluginInfo) -> (Seq<char>, PluginType) {
    (info.name@, info.plugin_type)
}

/// What the registry knows of each of `infos`.
pub open spec fn entries(infos: Seq<PluginInfo>) -> Seq<(Seq<char>, PluginType)> {
    infos.map_values(|info: PluginInfo| entry_of(info))
}

/// No two entries share a name.
pub open spec fn names_distinct(v: Seq<(Seq<char>, PluginType)>) -> bool {
    forall|i: int, j: int| 0 <= i < v.len() && 0 <= j < v.len() && i != j ==> v[i].0 != v[j].0
}

/// Some entry has this name.
pub open spec fn has_name(v: Seq<(Seq<char>, PluginType)>, name: Seq<char>) -> bool {
    exists|i: int| 0 <= i < v.len() && v[i].0 == name
}

/// The outcome of routing a query for `name` that expects `expected`: the
/// slot of the plugin, or why there is none.
pub open spec fn route_outcome(
    v: Seq<(Seq<char>, PluginType)>,
    name: Seq<char>,
    expected: PluginType,
) -> Result<int, PluginError> {
    if has_name(v, name) {
        let i = choose|i: int| 0 <= i < v.len() && v[i].0 == name;
        if serves(v[i].1, expected) {
            Ok(i)
        } else {
            Err(PluginError::WrongType)
        }
    } else {
        Err(PluginError::UnknownPlugin)
    }
}

/// The outcome of a formula: the slot and the arguments to send, or why
/// nothing is sent.
pub open spec fn dispatch_outcome(
    v: Seq<(Seq<char>, PluginType)>,
    formula: Seq<char>,
    expected: PluginType,
) -> Result<(int, Seq<char>), PluginError> {
    match formula_parts(formula) {
        None => Err(PluginError::QueryParseError),
        Some((name, arguments)) => match route_outcome(v, name, expected) {
            Ok(i) => Ok((i, arguments)),
            Err(e) => Err(e),
        },
    }
}

/// The value a response stands for: the answer, the plugin's own error, or
/// `BadAnswer` where no response could be read.
pub open spec fn answer_outcome(response: Option<Result<Answer, Error>>) -> Result<u64, PluginError> {
    match response {
        None => Err(PluginError::BadAnswer),
        Some(Ok(a)) => Ok(a.answer),
        Some(Err(e)) => Err(PluginError::PluginError(e)),
    }
}

/// The registry of started plugins.
pub struct Plugins {
    plugins: Vec<PluginInfo>,
}

impl View for Plugins {
    type V = Seq<(Seq<char>, PluginType)>;

    closed spec fn view(&self) -> Seq<(Seq<char>, PluginType)> {
        entries(self.plugins@)
    }
}

impl Plugins {
    /// Names are unique.
    pub open spec fn wf(&self) -> bool {
        names_distinct(self@)
    }

    /// An empty registry.
    pub fn new() -> (r: Plugins)
        ensures
            r.wf(),
            r@ == Seq::<(Seq<char>, PluginType)>::empty(),
    {
        Plugins { plugins: Vec::new() }
    }

    /// The number of registered plugins.
    pub fn len(&self) -> (r: usize)
        ensures
            r == self@.len(),
    {
        self.plugins.len()
    }

    /// The handshake of the plugin in slot `slot`.
    pub fn info(&self, slot: usize) -> (r: &PluginInfo)
        requires
            slot < self@.len(),
        ensures
            entry_of(*r) == self@[slot as int],
    {
        &self.plugins[slot]
    }

    /// The slot of the plugin named `name`, if one is registered.
    fn find(&self, name: &str) -> (r: Option<usize>)
        requires
            self.wf(),
        ensures
            match r {
                Some(k) => k < self@.len() && self@[k as int].0 == name@,
                None => !has_name(self@, name@),
            },
    {
        let key = name.to_owned();
        let mut k: usize = 0;
        while k < self.plugins.len()
            invariant
                k <= self.plugins.len(),
                key@ == name@,
                forall|j: int| 0 <= j < k ==> self@[j].0 != name@,
            decreases self.plugins.len() - k,
        {
            if self.plugins[k].name == key {
                return Some(k);
            }
            k += 1;
        }
        None
    }

    /// Adds a plugin under the name of its handshake, in the next slot.
    /// A name that is already registered is refused.
    pub fn register(&mut self, info: PluginInfo) -> (r: Result<usize, PluginError>)
        requires
            old(self).wf(),
        ensures
            final(self).wf(),
            has_name(old(self)@, info.name@) ==> r == Err::<usize, PluginError>(
                PluginError::DuplicatePlugin,
            ) && final(self)@ == old(self)@,
            !has_name(old(self)@, info.name@) ==> r == Ok::<usize, PluginError>(
                old(self)@.len() as usize,
            ) && final(self)@ == old(self)@.push(entry_of(info)),
    {
        match self.find(info.name.as_str()) {
            Some(_) => Err(PluginError::DuplicatePlugin),
            None => {
                let slot = self.plugins.len();
                let ghost before = self@;
                let ghost entry = entry_of(info);
                self.plugins.push(info);
                proof {
                    assert(self@ =~= before.push(entry));
                }
                Ok(slot)
            },
        }
    }

    /// A registry of the given handshakes, in their order. It is refused
    /// as a whole if two of them share a name.
    pub fn from_infos(infos: Vec<PluginInfo>) -> (r: Result<Plugins, PluginError>)
        ensures
            names_distinct(entries(infos@)) ==> (r matches Ok(
                p,
            ) && p.wf() && p@ == entries(infos@)),
            !names_distinct(entries(infos@)) ==> r == Err::<
                Plugins,
                PluginError,
            >(PluginError::DuplicatePlugin),
    {
        let ghost all = entries(infos@);
        let ghost given = infos@;
        let mut rest = infos;
        let mut plugins = Plugins::new();
        while rest.len() > 0
            invariant
                all == entries(given),
                given == infos@,
                plugins.wf(),
                plugins@.len() + rest@.len() == given.len(),
                plugins@ == all.take(plugins@.len() as int),
                rest@ == given.skip(plugins@.len() as int),
            decreases rest.len(),
        {
            let ghost k = plugins@.len() as int;
            let info = rest.remove(0);
            assert(info == given[k]);
            assert(all[k] == entry_of(info));
            match plugins.register(info) {
                Ok(_) => {
                    assert(rest@ =~= given.skip(k + 1));
                    assert(plugins@ =~= all.take(k + 1));
                },
                Err(e) => {
                    proof {
                        assert(has_name(all.take(k), all[k].0));
                        let i = choose|i: int|
                            0 <= i < all.take(k).len() && all.take(k)[i].0 == all[k].0;
                        assert(all[i].0 == all[k].0 && i != k);
                        assert(!names_distinct(all));
                    }
                    return Err(e);
                },
            }
        }
        proof {
            assert(all.take(given.len() as int) =~= all);
        }
        Ok(plugins)
    }

    /// Where a query for plugin `name` that expects `expected` goes: the
    /// slot of that plugin, `UnknownPlugin` if none has that name, or
    /// `WrongType` if it serves neither `expected` nor any capability.
    pub fn route(&self, name: &str, expected: PluginType) -> (r: Result<usize, PluginError>)
        requires
            self.wf(),
        ensures
            match route_outcome(self@, name@, expected) {
                Ok(i) => r matches Ok(k) && k == i && i < self@.len(),
                Err(e) => r == Err::<usize, PluginError>(e),
            },
    {
        match self.find(name) {
            None => Err(PluginError::UnknownPlugin),
            Some(k) => {
                proof {
                    let c = choose|i: int| 0 <= i < self@.len() && self@[i].0 == name@;
                    assert(c == k as int);
                }
                if self.plugins[k].plugin_type == expected || self.plugins[k].plugin_type
                    == PluginType::Any {
                    Ok(k)
                } else {
                    Err(PluginError::WrongType)
                }
            },
        }
    }

    /// Where a formula goes: the slot of its plugin and the request to send
    /// there, or why nothing is sent.
    pub fn dispatch(&self, formula: &str, expected: PluginType) -> (r: Result<
        (usize, Request),
        PluginError,
    >)
        requires
            self.wf(),
        ensures
            match dispatch_outcome(self@, formula@, expected) {
                Ok((i, arguments)) => r matches Ok((k, req)) && k == i && i < self@.len()
                    && req.arguments@ == arguments,
                Err(e) => r == Err::<(usize, Request), PluginError>(e),
            },
    {
        let (name, arguments) = match parse_formula(formula) {
            Ok(parts) => parts,
            Err(e) => {
                assert(formula_parts(formula@) is None);
                return Err(e);
            },
        };
        assert(formula_parts(formula@) == Some((name@, arguments@)));
        match self.route(name.as_str(), expected) {
            Ok(k) => Ok((k, Request { arguments })),
            Err(e) => Err(e),
        }
    }
}

/// A formula `name(arguments)` whose name holds no `(` and belongs to a
/// registered plugin that serves `expected` goes to that plugin with exactly
/// those arguments, and the answer it gives back is returned bit for bit.
pub proof fn lemma_query_round_trip(
    v: Seq<(Seq<char>, PluginType)>,
    name: Seq<char>,
    arguments: Seq<char>,
    expected: PluginType,
    i: int,
    bits: u64,
)
    requires
        names_distinct(v),
        0 <= i < v.len(),
        v[i].0 == name,
        serves(v[i].1, expected),
        forall|j: int| 0 <= j < name.len() ==> name[j] != '(',
    ensures
        dispatch_outcome(v, name + seq!['('] + arguments + seq![')'], expected) == Ok::<
            (int, Seq<char>),
            PluginError,
        >((i, arguments)),
        answer_outcome(Some(Ok(Answer { answer: bits }))) == Ok::<u64, PluginError>(bits),
{
    lemma_formula_round_trip(name, arguments, Seq::empty());
    let c = choose|k: int| 0 <= k < v.len() && v[k].0 == name;
    assert(c == i);
}

/// A query for a name that no plugin has fails with `UnknownPlugin`; one for
/// a registered plugin that serves neither the expected capability nor any
/// fails with `WrongType`.
pub proof fn lemma_route_guards(
    v: Seq<(Seq<char>, PluginType)>,
    name: Seq<char>,
    expected: PluginType,
    i: int,
)
    requires
        names_distinct(v),
    ensures
        (forall|j: int| 0 <= j < v.len() ==> v[j].0 != name) ==> route_outcome(v, name, expected)
            == Err::<int, PluginError>(PluginError::UnknownPlugin),
        0 <= i < v.len() && v[i].0 == name && !serves(v[i].1, expected) ==> route_outcome(
            v,
            name,
            expected,
        ) == Err::<int, PluginError>(PluginError::WrongType),
{
    if 0 <= i < v.len() && v[i].0 == name {
        let c = choose|k: int| 0 <= k < v.len() && v[k].0 == name;
        assert(c == i);
    }
}

/// The value of a plugin's response; `None` stands for a response that was
/// missing or could not be read.
pub fn answer_of(response: Option<Result<Answer, Error>>) -> (r: Result<u64, PluginError>)
    ensures
        r == answer_outcome(response),
{
    match response {
        None => Err(PluginError::BadAnswer),
        Some(Ok(a)) => Ok(a.answer),
        Some(Err(e)) => Err(PluginError::PluginError(e)),
    }
}

} // verus!
