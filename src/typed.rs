use vstd::prelude::*;

use crate::args::{lemma_lookup_bound, lookup};

verus! {

/// Whether a typed argument may be absent, and the value that stands in for it.
#[derive(Debug)]
pub struct ArgSettings<T> {
    pub optional: bool,
    pub default_value: Option<T>,
}

impl<T> Default for ArgSettings<T> {
    /// Required, without default.
    fn default() -> (r: Self)
        ensures
            !r.optional,
            r.default_value is None,
    {
        ArgSettings { optional: false, default_value: None }
    }
}

/// A typed argument slot: the value read for it, if any, and its settings.
pub enum CliArg {
    Unit(Option<()>, ArgSettings<()>),
    Bool(Option<bool>, ArgSettings<bool>),
    Int(Option<i32>, ArgSettings<i32>),
    String(Option<String>, ArgSettings<String>),
}

impl CliArg {
    /// The value of a unit slot.
    pub fn unwrap_unit(&self) -> (r: Option<&()>)
        requires
            self is Unit,
        ensures
            r is Some <==> self->Unit_0 is Some,
    {
        match self {
            CliArg::Unit(v, _) => v.as_ref(),
            _ => None,
        }
    }

    /// The value of a boolean slot.
    pub fn unwrap_bool(&self) -> (r: Option<&bool>)
        requires
            self is Bool,
        ensures
            match self->Bool_0 {
                Some(b) => r is Some && *r->0 == b,
                None => r is None,
            },
    {
        match self {
            CliArg::Bool(v, _) => v.as_ref(),
            _ => None,
        }
    }

    /// The value of an integer slot.
    pub fn unwrap_int(&self) -> (r: Option<&i32>)
        requires
            self is Int,
        ensures
            match self->Int_0 {
                Some(n) => r is Some && *r->0 == n,
                None => r is None,
            },
    {
        match self {
            CliArg::Int(v, _) => v.as_ref(),
            _ => None,
        }
    }

    /// The value of a text slot.
    pub fn unwrap_string(&self) -> (r: Option<&String>)
        requires
            self is String,
        ensures
            match self->String_0 {
                Some(s) => r is Some && r->0@ == s@,
                None => r is None,
            },
    {
        match self {
            CliArg::String(v, _) => v.as_ref(),
            _ => None,
        }
    }
}

/// A value type that a typed slot can hold.
pub trait ArgType<T>: Sized {
    /// Whether `arg` is a slot for this type.
    spec fn holds(arg: CliArg) -> bool;

    /// The value that a slot for this type holds.
    spec fn value_of(arg: CliArg) -> Option<T>;

    /// The empty slot for this type with the given settings.
    spec fn empty_slot(settings: ArgSettings<T>) -> CliArg;

    /// An empty slot for this type.
    fn object(settings: ArgSettings<T>) -> (r: CliArg)
        ensures
            r == Self::empty_slot(settings),
            Self::holds(r),
            Self::value_of(r) is None,
    ;

    /// The value that a slot for this type holds.
    fn extract(cli_arg: &CliArg) -> (r: Option<&T>)
        requires
            Self::holds(*cli_arg),
        ensures
            match Self::value_of(*cli_arg) {
                Some(v) => r is Some && *r->0 == v,
                None => r is None,
            },
    ;
}

impl ArgType<()> for () {
    open spec fn holds(arg: CliArg) -> bool {
        arg is Unit
    }

    open spec fn value_of(arg: CliArg) -> Option<()> {
        arg->Unit_0
    }

    open spec fn empty_slot(settings: ArgSettings<()>) -> CliArg {
        CliArg::Unit(None, settings)
    }

    fn object(settings: ArgSettings<()>) -> (r: CliArg) {
        CliArg::Unit(None, settings)
    }

    fn extract(cli_arg: &CliArg) -> (r: Option<&()>) {
        cli_arg.unwrap_unit()
    }
}

impl ArgType<bool> for bool {
    open spec fn holds(arg: CliArg) -> bool {
        arg is Bool
    }

    open spec fn value_of(arg: CliArg) -> Option<bool> {
        arg->Bool_0
    }

    open spec fn empty_slot(settings: ArgSettings<bool>) -> CliArg {
        CliArg::Bool(None, settings)
    }

    fn object(settings: ArgSettings<bool>) -> (r: CliArg) {
        CliArg::Bool(None, settings)
    }

    fn extract(cli_arg: &CliArg) -> (r: Option<&bool>) {
        cli_arg.unwrap_bool()
    }
}

impl ArgType<i32> for i32 {
    open spec fn holds(arg: CliArg) -> bool {
        arg is Int
    }

    open spec fn value_of(arg: CliArg) -> Option<i32> {
        arg->Int_0
    }

    open spec fn empty_slot(settings: ArgSettings<i32>) -> CliArg {
        CliArg::Int(None, settings)
    }

    fn object(settings: ArgSettings<i32>) -> (r: CliArg) {
        CliArg::Int(None, settings)
    }

    fn extract(cli_arg: &CliArg) -> (r: Option<&i32>) {
        cli_arg.unwrap_int()
    }
}

impl ArgType<String> for String {
    open spec fn holds(arg: CliArg) -> bool {
        arg is String
    }

    open spec fn value_of(arg: CliArg) -> Option<String> {
        arg->String_0
    }

    open spec fn empty_slot(settings: ArgSettings<String>) -> CliArg {
        CliArg::String(None, settings)
    }

    fn object(settings: ArgSettings<String>) -> (r: CliArg) {
        CliArg::String(None, settings)
    }

    fn extract(cli_arg: &CliArg) -> (r: Option<&String>) {
        match cli_arg {
            CliArg::String(v, _) => v.as_ref(),
            _ => None,
        }
    }
}

/// A table of typed slots, each found under one key.
pub struct CliArgsParser {
    args_ind: Vec<(String, usize)>,
    args: Vec<CliArg>,
}

impl CliArgsParser {
    /// Every key maps to a slot.
    pub closed spec fn wf(&self) -> bool {
        &&& self.args@.len() <= usize::MAX
        &&& forall|j: int|
            0 <= j < self.args_ind@.len() ==> (#[trigger] self.args_ind@[j]).1 < self.args@.len()
    }

    /// The slots, in declaration order.
    pub closed spec fn slots(&self) -> Seq<CliArg> {
        self.args@
    }

    /// The keys with their slots' positions, in registration order.
    pub closed spec fn key_table(&self) -> Seq<(String, usize)> {
        self.args_ind@
    }

    /// The slot that key `k` finds: the last one registered under it.
    pub open spec fn slot_of(&self, k: Seq<char>) -> Option<CliArg> {
        match lookup(self.key_table(), k) {
            Some(i) => Some(self.slots()[i as int]),
            None => None,
        }
    }

    pub fn new() -> (r: Self)
        ensures
            r.wf(),
            r.slots() == Seq::<CliArg>::empty(),
            r.key_table() == Seq::<(String, usize)>::empty(),
    {
        Self { args_ind: Vec::new(), args: Vec::new() }
    }

    /// Adds an empty slot of type `T` under `key`, with the given settings or,
    /// when none are given, required and without default.
    pub fn with<T>(&mut self, key: String, settings: Option<ArgSettings<T>>) -> (r: &mut Self)
        where
            T: ArgType<T>,
        requires
            old(self).wf(),
            old(self).slots().len() < usize::MAX,
        ensures
            r.wf(),
            r.slots().len() == old(self).slots().len() + 1,
            r.slots().subrange(0, old(self).slots().len() as int) == old(self).slots(),
            r.slots().last() == T::empty_slot(
                match settings {
                    Some(s) => s,
                    None => ArgSettings { optional: false, default_value: None },
                },
            ),
            T::holds(r.slots().last()),
            T::value_of(r.slots().last()) is None,
            r.key_table() == old(self).key_table().push((key, old(self).slots().len() as usize)),
            *final(self) == *final(r),
    {
        let settings = match settings {
            Some(s) => s,
            None => ArgSettings::default(),
        };
        let ind = self.args.len();
        self.args_ind.push((key, ind));
        self.args.push(T::object(settings));
        assert(self.args@.subrange(0, ind as int) =~= old(self).args@);
        self
    }

    /// The value in the slot under `key`, which must be a slot for `T`.
    pub fn get<T>(&self, key: &str) -> (r: Option<&T>)
        where
            T: ArgType<T>,
        requires
            self.wf(),
            self.slot_of(key@) matches Some(a) ==> T::holds(a),
        ensures
            match self.slot_of(key@) {
                Some(a) => match T::value_of(a) {
                    Some(v) => r is Some && *r->0 == v,
                    None => r is None,
                },
                None => r is None,
            },
    {
        proof {
            lemma_lookup_bound(self.args_ind@, key@, self.args@.len());
        }
        let k = key.to_owned();
        let mut i: usize = self.args_ind.len();
        assert(self.args_ind@.subrange(0, i as int) =~= self.args_ind@);
        while i > 0
            invariant
                i <= self.args_ind@.len(),
                k@ == key@,
                self.slot_of(key@) matches Some(a) ==> T::holds(a),
                lookup(self.args_ind@, key@) matches Some(j) ==> j < self.args@.len(),
                lookup(self.args_ind@.subrange(0, i as int), key@) == lookup(self.args_ind@, key@),
            decreases i,
        {
            assert(self.args_ind@.subrange(0, i as int).drop_last() =~= self.args_ind@.subrange(
                0,
                i - 1,
            ));
            if self.args_ind[i - 1].0 == k {
                let ind = self.args_ind[i - 1].1;
                return T::extract(&self.args[ind]);
            }
            i = i - 1;
        }
        None
    }
}

} // verus!
