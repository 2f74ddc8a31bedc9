use vstd::prelude::*;

use crate::schema::{opt_view, parse_schema, schema_decl, SchemaError};
use crate::text::{
    chars_of, find, find_char, int_literal, parse_int, slice_chars, split_words, string_of, texts,
    words,
};

verus! {

/// What a descriptor holds for one value type: the values seen so far, whether
/// absence is acceptable, and the value that stands in when none was seen.
pub struct SettingsModel<V> {
    pub vals: Seq<V>,
    pub optional: bool,
    pub default: Option<V>,
}

/// A descriptor as mathematics: one of the three value kinds, with its settings.
pub enum ArgModel {
    Bool(SettingsModel<bool>),
    Int(SettingsModel<i32>),
    Str(SettingsModel<Seq<char>>),
}

impl ArgModel {
    /// How many values the descriptor holds.
    pub open spec fn count(self) -> nat {
        match self {
            ArgModel::Bool(m) => m.vals.len(),
            ArgModel::Int(m) => m.vals.len(),
            ArgModel::Str(m) => m.vals.len(),
        }
    }

    pub open spec fn is_optional(self) -> bool {
        match self {
            ArgModel::Bool(m) => m.optional,
            ArgModel::Int(m) => m.optional,
            ArgModel::Str(m) => m.optional,
        }
    }

    pub open spec fn has_default(self) -> bool {
        match self {
            ArgModel::Bool(m) => m.default is Some,
            ArgModel::Int(m) => m.default is Some,
            ArgModel::Str(m) => m.default is Some,
        }
    }

    /// The descriptor holds exactly one value, its default.
    pub open spec fn holds_default(self) -> bool {
        match self {
            ArgModel::Bool(m) => m.default is Some && m.vals == seq![m.default->0],
            ArgModel::Int(m) => m.default is Some && m.vals == seq![m.default->0],
            ArgModel::Str(m) => m.default is Some && m.vals == seq![m.default->0],
        }
    }
}

/// The values once the default policy is applied: an empty list takes the
/// default when there is one.
pub open spec fn resolved<V>(m: SettingsModel<V>) -> SettingsModel<V> {
    if m.vals.len() == 0 && m.default is Some {
        SettingsModel { vals: seq![m.default->0], ..m }
    } else {
        m
    }
}

/// No value was seen, none stands in, and absence is not acceptable.
pub open spec fn missing<V>(m: SettingsModel<V>) -> bool {
    m.vals.len() == 0 && m.default is None && !m.optional
}

pub open spec fn resolved_arg(a: ArgModel) -> ArgModel {
    match a {
        ArgModel::Bool(m) => ArgModel::Bool(resolved(m)),
        ArgModel::Int(m) => ArgModel::Int(resolved(m)),
        ArgModel::Str(m) => ArgModel::Str(resolved(m)),
    }
}

pub open spec fn missing_arg(a: ArgModel) -> bool {
    match a {
        ArgModel::Bool(m) => missing(m),
        ArgModel::Int(m) => missing(m),
        ArgModel::Str(m) => missing(m),
    }
}

/// Whether a value may be absent, and the value that stands in for it.
#[derive(Debug)]
pub struct ArgSettings<T> {
    pub optional: bool,
    pub default_val: Option<T>,
}

impl<T> Default for ArgSettings<T> {
    /// Required, without default.
    fn default() -> (r: Self)
        ensures
            !r.optional,
            r.default_val is None,
    {
        ArgSettings { optional: false, default_val: None }
    }
}

impl<T> ArgSettings<T> {
    pub open spec fn model_of(&self, vals: Seq<T>) -> SettingsModel<T> {
        SettingsModel { vals, optional: self.optional, default: self.default_val }
    }
}

impl ArgSettings<bool> {
    /// Applies the default policy to the values of one descriptor.
    pub fn apply(&self, vals: &mut Vec<bool>) -> (r: Result<(), ()>)
        ensures
            final(vals)@ == resolved(self.model_of(old(vals)@)).vals,
            r is Err <==> missing(self.model_of(old(vals)@)),
    {
        if vals.len() == 0 {
            match &self.default_val {
                Some(d) => {
                    vals.push(*d);
                },
                None => {
                    if !self.optional {
                        return Err(());
                    }
                },
            }
        }
        Ok(())
    }
}

impl ArgSettings<i32> {
    /// Applies the default policy to the values of one descriptor.
    pub fn apply(&self, vals: &mut Vec<i32>) -> (r: Result<(), ()>)
        ensures
            final(vals)@ == resolved(self.model_of(old(vals)@)).vals,
            r is Err <==> missing(self.model_of(old(vals)@)),
    {
        if vals.len() == 0 {
            match &self.default_val {
                Some(d) => {
                    vals.push(*d);
                },
                None => {
                    if !self.optional {
                        return Err(());
                    }
                },
            }
        }
        Ok(())
    }
}

impl ArgSettings<String> {
    /// The settings with each text seen as its characters.
    pub open spec fn text_model(&self, vals: Seq<String>) -> SettingsModel<Seq<char>> {
        SettingsModel {
            vals: vals.map_values(|s: String| s@),
            optional: self.optional,
            default: match self.default_val {
                Some(d) => Some(d@),
                None => None,
            },
        }
    }

    /// Applies the default policy to the values of one descriptor.
    pub fn apply(&self, vals: &mut Vec<String>) -> (r: Result<(), ()>)
        ensures
            final(vals)@.map_values(|s: String| s@) == resolved(self.text_model(old(vals)@)).vals,
            r is Err <==> missing(self.text_model(old(vals)@)),
    {
        if vals.len() == 0 {
            match &self.default_val {
                Some(d) => {
                    vals.push(d.clone());
                    assert(vals@.map_values(|s: String| s@) =~= seq![d@]);
                },
                None => {
                    if !self.optional {
                        return Err(());
                    }
                },
            }
        }
        Ok(())
    }
}

/// One declared argument: its kind, the values seen for it, and its settings.
#[derive(Debug)]
pub enum Arg {
    Bool { vals: Vec<bool>, settings: ArgSettings<bool> },
    Int { vals: Vec<i32>, settings: ArgSettings<i32> },
    String { vals: Vec<String>, settings: ArgSettings<String> },
}

impl View for Arg {
    type V = ArgModel;

    open spec fn view(&self) -> ArgModel {
        match self {
            Arg::Bool { vals, settings } => ArgModel::Bool(settings.model_of(vals@)),
            Arg::Int { vals, settings } => ArgModel::Int(settings.model_of(vals@)),
            Arg::String { vals, settings } => ArgModel::Str(settings.text_model(vals@)),
        }
    }
}

impl Arg {
    /// Applies the descriptor's default policy to the values seen for it; fails
    /// when a required value is absent and no default stands in.
    pub fn apply_settings(&mut self) -> (r: Result<(), ()>)
        ensures
            final(self)@ == resolved_arg(old(self)@),
            r is Err <==> missing_arg(old(self)@),
    {
        match self {
            Arg::Bool { vals, settings } => settings.apply(vals),
            Arg::Int { vals, settings } => settings.apply(vals),
            Arg::String { vals, settings } => settings.apply(vals),
        }
    }
}

/// A failure of an accessor: the key names no descriptor, or the descriptor
/// holds another kind of value.
#[derive(Debug, PartialEq, Eq, Structural)]
pub enum ArgError {
    WrongKey,
    WrongType,
}

/// A failure while reading tokens or resolving the descriptors after them.
#[derive(Debug, PartialEq, Eq, Structural)]
pub enum ParseError {
    UnknownKey,
    MalformedArgument,
    ValueTypeError,
    DanglingValue,
    MissingRequiredArgument(usize),
}

/// The descriptor with `text` read as one more value of its kind.
pub open spec fn with_value(a: ArgModel, text: Seq<char>) -> Result<ArgModel, ParseError> {
    match a {
        ArgModel::Bool(_) => Err(ParseError::MalformedArgument),
        ArgModel::Int(m) => match int_literal(text) {
            Some(v) => Ok(ArgModel::Int(SettingsModel { vals: m.vals.push(v), ..m })),
            None => Err(ParseError::ValueTypeError),
        },
        ArgModel::Str(m) => Ok(ArgModel::Str(SettingsModel { vals: m.vals.push(text), ..m })),
    }
}

/// The descriptor with one more presence record, when it is a boolean one.
pub open spec fn with_presence(a: ArgModel) -> ArgModel {
    match a {
        ArgModel::Bool(m) => ArgModel::Bool(SettingsModel { vals: m.vals.push(true), ..m }),
        _ => a,
    }
}

impl Arg {
    /// Whether the descriptor is a boolean one.
    pub fn is_bool(&self) -> (r: bool)
        ensures
            r == (self@ is Bool),
    {
        match self {
            Arg::Bool { .. } => true,
            _ => false,
        }
    }

    /// Records one presence of a boolean flag.
    pub fn push_presence(&mut self)
        ensures
            final(self)@ == with_presence(old(self)@),
    {
        match self {
            Arg::Bool { vals, .. } => vals.push(true),
            _ => {},
        }
    }

    /// Reads `text` as one more value of the descriptor's kind; a boolean
    /// descriptor takes no text.
    pub fn push_text(&mut self, text: &Vec<char>) -> (r: Result<(), ParseError>)
        ensures
            match with_value(old(self)@, text@) {
                Ok(a) => r is Ok && final(self)@ == a,
                Err(e) => r == Err::<(), ParseError>(e) && final(self)@ == old(self)@,
            },
    {
        match self {
            Arg::Bool { .. } => Err(ParseError::MalformedArgument),
            Arg::Int { vals, .. } => match parse_int(text) {
                Some(v) => {
                    vals.push(v);
                    Ok(())
                },
                None => Err(ParseError::ValueTypeError),
            },
            Arg::String { vals, .. } => {
                let ghost before = vals@;
                vals.push(string_of(text));
                assert(vals@.map_values(|s: String| s@) =~= before.map_values(|s: String| s@).push(
                    text@,
                ));
                Ok(())
            },
        }
    }
}

/// The descriptor that `k` names: the last entry of the table with that name.
pub open spec fn lookup(keys: Seq<(String, usize)>, k: Seq<char>) -> Option<usize>
    decreases keys.len(),
{
    if keys.len() == 0 {
        None
    } else if keys.last().0@ == k {
        Some(keys.last().1)
    } else {
        lookup(keys.drop_last(), k)
    }
}

/// A name of a table whose entries all point below `n` finds a position below `n`.
pub proof fn lemma_lookup_bound(keys: Seq<(String, usize)>, k: Seq<char>, n: nat)
    requires
        forall|j: int| 0 <= j < keys.len() ==> (#[trigger] keys[j]).1 < n,
    ensures
        lookup(keys, k) matches Some(i) ==> i < n,
    decreases keys.len(),
{
    if keys.len() > 0 {
        lemma_lookup_bound(keys.drop_last(), k, n);
    }
}

proof fn lemma_lookup_push(keys: Seq<(String, usize)>, e: (String, usize))
    ensures
        forall|k: Seq<char>| #[trigger]
            lookup(keys.push(e), k) == if e.0@ == k {
                Some(e.1)
            } else {
                lookup(keys, k)
            },
{
    assert(keys.push(e).drop_last() =~= keys);
}

/// Where a scan stands: the descriptors so far, the descriptor that awaits a
/// value from the next token, and the error that ended the scan, if any.
pub struct ScanState {
    pub descs: Seq<ArgModel>,
    pub awaiting: Option<usize>,
    pub error: Option<ParseError>,
}

/// `--name` or `--name=value`.
pub open spec fn is_long_key(tok: Seq<char>) -> bool {
    tok.len() >= 2 && tok[0] == '-' && tok[1] == '-'
}

/// `-name`: one dash, not two.
pub open spec fn is_short_key(tok: Seq<char>) -> bool {
    tok.len() >= 1 && tok[0] == '-' && !is_long_key(tok)
}

/// The state that an error ends, with the descriptors left as they were.
pub open spec fn fail(st: ScanState, e: ParseError) -> ScanState {
    ScanState { error: Some(e), ..st }
}

/// The state after one more value for descriptor `i`, which ends the wait for a value.
pub open spec fn take_value(st: ScanState, i: usize, text: Seq<char>, awaiting: Option<usize>) -> ScanState {
    match with_value(st.descs[i as int], text) {
        Ok(a) => ScanState { descs: st.descs.update(i as int, a), awaiting, error: None },
        Err(e) => fail(st, e),
    }
}

/// The state after one token, from a state without error.
pub open spec fn step(keys: Seq<(String, usize)>, st: ScanState, tok: Seq<char>) -> ScanState {
    if is_long_key(tok) {
        let e = find(tok, '=');
        let val = if e < tok.len() {
            tok.subrange(e + 1, tok.len() as int)
        } else {
            seq![]
        };
        match lookup(keys, tok.subrange(0, e)) {
            None => fail(st, ParseError::UnknownKey),
            Some(i) => if st.descs[i as int] is Bool {
                if val.len() == 0 {
                    ScanState {
                        descs: st.descs.update(i as int, with_presence(st.descs[i as int])),
                        ..st
                    }
                } else {
                    fail(st, ParseError::MalformedArgument)
                }
            } else {
                take_value(st, i, val, st.awaiting)
            },
        }
    } else if is_short_key(tok) {
        match lookup(keys, tok) {
            None => fail(st, ParseError::UnknownKey),
            Some(i) => if st.descs[i as int] is Bool {
                ScanState {
                    descs: st.descs.update(i as int, with_presence(st.descs[i as int])),
                    ..st
                }
            } else {
                ScanState { awaiting: Some(i), ..st }
            },
        }
    } else {
        match st.awaiting {
            None => fail(st, ParseError::DanglingValue),
            Some(i) => take_value(st, i, tok, None),
        }
    }
}

/// The state after the tokens, left to right; the first error ends the scan
/// and leaves the descriptors as they were before the token that caused it.
pub open spec fn scan_all(
    keys: Seq<(String, usize)>,
    descs: Seq<ArgModel>,
    toks: Seq<Seq<char>>,
) -> ScanState
    decreases toks.len(),
{
    if toks.len() == 0 {
        ScanState { descs, awaiting: None, error: None }
    } else {
        let prev = scan_all(keys, descs, toks.drop_last());
        if prev.error is Some {
            prev
        } else {
            step(keys, prev, toks.last())
        }
    }
}

/// A scan stops at its first error: the tokens after the one that failed
/// change nothing, neither the descriptors nor the error.
pub proof fn lemma_scan_sticky(
    keys: Seq<(String, usize)>,
    descs: Seq<ArgModel>,
    toks: Seq<Seq<char>>,
    j: int,
)
    requires
        0 <= j <= toks.len(),
        scan_all(keys, descs, toks.subrange(0, j)).error is Some,
    ensures
        scan_all(keys, descs, toks) == scan_all(keys, descs, toks.subrange(0, j)),
    decreases toks.len(),
{
    if j == toks.len() {
        assert(toks.subrange(0, j) =~= toks);
    } else {
        assert(toks.drop_last().subrange(0, j) =~= toks.subrange(0, j));
        lemma_scan_sticky(keys, descs, toks.drop_last(), j);
    }
}

/// The index of the first descriptor that is missing its required value.
pub open spec fn first_missing(descs: Seq<ArgModel>) -> Option<nat>
    decreases descs.len(),
{
    if descs.len() == 0 {
        None
    } else {
        let p = first_missing(descs.drop_last());
        if p is Some {
            p
        } else if missing_arg(descs.last()) {
            Some((descs.len() - 1) as nat)
        } else {
            None
        }
    }
}

pub open spec fn resolved_all(descs: Seq<ArgModel>) -> Seq<ArgModel> {
    descs.map_values(|a: ArgModel| resolved_arg(a))
}

/// The descriptors and the result after scanning `toks` and, when the scan
/// succeeds, resolving every descriptor.
pub open spec fn parsed(keys: Seq<(String, usize)>, descs: Seq<ArgModel>, toks: Seq<Seq<char>>) -> (
    Seq<ArgModel>,
    Result<(), ParseError>,
) {
    let st = scan_all(keys, descs, toks);
    match st.error {
        Some(e) => (st.descs, Err(e)),
        None => (
            resolved_all(st.descs),
            match first_missing(st.descs) {
                Some(i) => Err(ParseError::MissingRequiredArgument(i as usize)),
                None => Ok(()),
            },
        ),
    }
}

pub open spec fn first<V>(s: Seq<V>) -> Option<V> {
    if s.len() > 0 {
        Some(s[0])
    } else {
        None
    }
}

pub open spec fn opt_str(o: Option<&str>) -> Option<Seq<char>> {
    match o {
        Some(s) => Some(s@),
        None => None,
    }
}

/// An argument table: the declared descriptors, in declaration order, and
/// the names under which each can be found.
#[derive(Debug)]
pub struct CliArgs {
    keys: Vec<(String, usize)>,
    args: Vec<Arg>,
}

impl Default for CliArgs {
    /// An empty table.
    fn default() -> (r: Self)
        ensures
            r.wf(),
            r.descs() == Seq::<ArgModel>::empty(),
            r.key_table() == Seq::<(String, usize)>::empty(),
    {
        CliArgs::new()
    }
}

impl CliArgs {
    /// Every name maps to a declared descriptor.
    pub closed spec fn wf(&self) -> bool {
        &&& self.args@.len() <= usize::MAX
        &&& forall|j: int|
            0 <= j < self.keys@.len() ==> (#[trigger] self.keys@[j]).1 < self.args@.len()
    }

    /// The names with their descriptors' positions, in registration order.
    pub closed spec fn key_table(&self) -> Seq<(String, usize)> {
        self.keys@
    }

    /// The descriptors, in declaration order.
    pub closed spec fn descs(&self) -> Seq<ArgModel> {
        self.args@.map_values(|a: Arg| a@)
    }

    /// The position of the descriptor that name `k` finds.
    pub open spec fn index_of(&self, k: Seq<char>) -> Option<usize> {
        lookup(self.key_table(), k)
    }

    /// The descriptor that name `k` finds.
    pub open spec fn arg_at(&self, k: Seq<char>) -> Result<ArgModel, ArgError> {
        match self.index_of(k) {
            Some(i) => Ok(self.descs()[i as int]),
            None => Err(ArgError::WrongKey),
        }
    }

    /// The boolean values under name `k`.
    pub open spec fn bool_vals(&self, k: Seq<char>) -> Result<Seq<bool>, ArgError> {
        match self.arg_at(k) {
            Err(e) => Err(e),
            Ok(ArgModel::Bool(m)) => Ok(m.vals),
            Ok(_) => Err(ArgError::WrongType),
        }
    }

    /// The integer values under name `k`.
    pub open spec fn int_vals(&self, k: Seq<char>) -> Result<Seq<i32>, ArgError> {
        match self.arg_at(k) {
            Err(e) => Err(e),
            Ok(ArgModel::Int(m)) => Ok(m.vals),
            Ok(_) => Err(ArgError::WrongType),
        }
    }

    /// The text values under name `k`.
    pub open spec fn text_vals(&self, k: Seq<char>) -> Result<Seq<Seq<char>>, ArgError> {
        match self.arg_at(k) {
            Err(e) => Err(e),
            Ok(ArgModel::Str(m)) => Ok(m.vals),
            Ok(_) => Err(ArgError::WrongType),
        }
    }

    /// Every name of a well-formed table maps to one of its descriptors.
    pub proof fn lemma_wf_keys(&self)
        requires
            self.wf(),
        ensures
            self.descs().len() <= usize::MAX,
            forall|j: int|
                0 <= j < self.key_table().len() ==> (#[trigger] self.key_table()[j]).1
                    < self.descs().len(),
    {
    }

    /// A name of a well-formed table finds one of its descriptors.
    pub proof fn lemma_index_bound(&self, k: Seq<char>)
        requires
            self.wf(),
        ensures
            self.index_of(k) matches Some(i) ==> i < self.descs().len(),
    {
        lemma_lookup_bound(self.keys@, k, self.args@.len());
    }

    /// An empty table.
    pub fn new() -> (r: Self)
        ensures
            r.wf(),
            r.descs() == Seq::<ArgModel>::empty(),
            r.key_table() == Seq::<(String, usize)>::empty(),
    {
        let r = CliArgs { keys: Vec::new(), args: Vec::new() };
        assert(r.descs() =~= Seq::<ArgModel>::empty());
        r
    }

    /// Declares one descriptor from a schema string and registers its names;
    /// returns its position.
    pub fn with(&mut self, schema: &str) -> (r: Result<usize, SchemaError>)
        requires
            old(self).wf(),
            old(self).descs().len() < usize::MAX,
        ensures
            final(self).wf(),
            match schema_decl(schema@) {
                None => {
                    &&& r is Err
                    &&& final(self).descs() == old(self).descs()
                    &&& final(self).key_table() == old(self).key_table()
                },
                Some(d) => {
                    &&& r == Ok::<usize, SchemaError>(old(self).descs().len() as usize)
                    &&& final(self).descs() == old(self).descs().push(d.arg)
                    &&& forall|k: Seq<char>| #[trigger]
                        final(self).index_of(k) == if d.long == Some(k) || d.short == Some(k) {
                            Some(old(self).descs().len() as usize)
                        } else {
                            old(self).index_of(k)
                        }
                },
            },
    {
        let (l, s, a) = match parse_schema(schema) {
            Ok(decl) => decl,
            Err(e) => {
                return Err(e);
            },
        };
        let ind = self.args.len();
        match s {
            Some(s) => {
                proof {
                    lemma_lookup_push(self.keys@, (s, ind));
                }
                self.keys.push((s, ind));
            },
            None => {},
        }
        match l {
            Some(l) => {
                proof {
                    lemma_lookup_push(self.keys@, (l, ind));
                }
                self.keys.push((l, ind));
            },
            None => {},
        }
        let ghost args0 = self.args@;
        self.args.push(a);
        assert(self.descs() =~= args0.map_values(|a: Arg| a@).push(a@));
        Ok(ind)
    }

    /// The position of the descriptor that `key` names.
    fn find_key(&self, key: &str) -> (r: Option<usize>)
        requires
            self.wf(),
        ensures
            r == self.index_of(key@),
            r matches Some(i) ==> i < self.descs().len(),
    {
        proof {
            self.lemma_index_bound(key@);
        }
        let k = key.to_owned();
        let mut i: usize = self.keys.len();
        assert(self.keys@.subrange(0, i as int) =~= self.keys@);
        while i > 0
            invariant
                i <= self.keys@.len(),
                k@ == key@,
                self.index_of(key@) matches Some(j) ==> j < self.descs().len(),
                lookup(self.keys@.subrange(0, i as int), key@) == lookup(self.keys@, key@),
            decreases i,
        {
            assert(self.keys@.subrange(0, i as int).drop_last() =~= self.keys@.subrange(
                0,
                i - 1,
            ));
            if self.keys[i - 1].0 == k {
                return Some(self.keys[i - 1].1);
            }
            i = i - 1;
        }
        None
    }

    /// Reads one token, given the descriptor that awaits a value, and returns
    /// the descriptor that awaits one after it.
    fn step_token(&mut self, tok: &Vec<char>, awaiting: Option<usize>) -> (r: Result<
        Option<usize>,
        ParseError,
    >)
        requires
            old(self).wf(),
            awaiting matches Some(i) ==> i < old(self).descs().len(),
        ensures
            final(self).wf(),
            final(self).key_table() == old(self).key_table(),
            ({
                let st = step(
                    old(self).key_table(),
                    ScanState { descs: old(self).descs(), awaiting, error: None },
                    tok@,
                );
                match r {
                    Ok(aw) => st == ScanState { descs: final(self).descs(), awaiting: aw, error: None }
                        && (aw matches Some(i) ==> i < final(self).descs().len()),
                    Err(e) => st.error == Some(e) && st.descs == final(self).descs(),
                }
            }),
    {
        let n = tok.len();
        let ghost st = ScanState { descs: self.descs(), awaiting, error: None };
        if n >= 2 && tok[0] == '-' && tok[1] == '-' {
            let e = find_char(tok, '=', 0, n);
            assert(tok@.subrange(0, n as int) =~= tok@);
            let key = string_of(&slice_chars(tok, 0, e));
            let val = if e < n {
                slice_chars(tok, e + 1, n)
            } else {
                Vec::new()
            };
            assert(e >= n ==> val@ =~= seq![]);
            match self.find_key(key.as_str()) {
                None => Err(ParseError::UnknownKey),
                Some(i) => {
                    if self.args[i].is_bool() {
                        if val.len() == 0 {
                            self.args[i].push_presence();
                            assert(self.descs() =~= st.descs.update(
                                i as int,
                                with_presence(st.descs[i as int]),
                            ));
                            Ok(awaiting)
                        } else {
                            Err(ParseError::MalformedArgument)
                        }
                    } else {
                        let res = self.args[i].push_text(&val);
                        match res {
                            Ok(()) => {
                                assert(self.descs() =~= st.descs.update(
                                    i as int,
                                    self.args@[i as int]@,
                                ));
                                Ok(awaiting)
                            },
                            Err(e) => {
                                assert(self.descs() =~= st.descs);
                                Err(e)
                            },
                        }
                    }
                },
            }
        } else if n >= 1 && tok[0] == '-' {
            let key = string_of(tok);
            match self.find_key(key.as_str()) {
                None => Err(ParseError::UnknownKey),
                Some(i) => {
                    if self.args[i].is_bool() {
                        self.args[i].push_presence();
                        assert(self.descs() =~= st.descs.update(
                            i as int,
                            with_presence(st.descs[i as int]),
                        ));
                        Ok(awaiting)
                    } else {
                        Ok(Some(i))
                    }
                },
            }
        } else {
            match awaiting {
                None => Err(ParseError::DanglingValue),
                Some(i) => {
                    let res = self.args[i].push_text(tok);
                    match res {
                        Ok(()) => {
                            assert(self.descs() =~= st.descs.update(i as int, self.args@[i as int]@));
                            Ok(None)
                        },
                        Err(e) => {
                            assert(self.descs() =~= st.descs);
                            Err(e)
                        },
                    }
                },
            }
        }
    }

    /// Reads the tokens left to right into the descriptors; stops at the first
    /// error, which it returns.
    pub fn scan(&mut self, tokens: &Vec<String>) -> (r: Result<(), ParseError>)
        requires
            old(self).wf(),
        ensures
            final(self).wf(),
            final(self).key_table() == old(self).key_table(),
            ({
                let st = scan_all(old(self).key_table(), old(self).descs(), texts(tokens@));
                &&& final(self).descs() == st.descs
                &&& r == match st.error {
                    Some(e) => Err(e),
                    None => Ok::<(), ParseError>(()),
                }
            }),
    {
        let ghost keys = self.key_table();
        let ghost d0 = self.descs();
        let ghost toks = texts(tokens@);
        let mut awaiting: Option<usize> = None;
        let mut i: usize = 0;
        assert(toks.subrange(0, 0) =~= Seq::<Seq<char>>::empty());
        while i < tokens.len()
            invariant
                i <= tokens@.len(),
                toks == texts(tokens@),
                keys == old(self).key_table(),
                d0 == old(self).descs(),
                self.wf(),
                self.key_table() == keys,
                awaiting matches Some(j) ==> j < self.descs().len(),
                scan_all(keys, d0, toks.subrange(0, i as int)) == (ScanState {
                    descs: self.descs(),
                    awaiting,
                    error: None,
                }),
            decreases tokens@.len() - i,
        {
            let tok = chars_of(tokens[i].as_str());
            assert(toks.subrange(0, i + 1).drop_last() =~= toks.subrange(0, i as int));
            assert(tok@ == toks[i as int]);
            match self.step_token(&tok, awaiting) {
                Ok(aw) => {
                    awaiting = aw;
                },
                Err(e) => {
                    proof {
                        assert(scan_all(keys, d0, toks.subrange(0, i + 1)).error == Some(e));
                        lemma_scan_sticky(keys, d0, toks, i + 1);
                    }
                    return Err(e);
                },
            }
            i = i + 1;
        }
        assert(toks.subrange(0, i as int) =~= toks);
        Ok(())
    }

    /// Applies each descriptor's default policy; fails naming the first
    /// descriptor whose required value is absent.
    pub fn resolve(&mut self) -> (r: Result<(), ParseError>)
        requires
            old(self).wf(),
        ensures
            final(self).wf(),
            final(self).key_table() == old(self).key_table(),
            final(self).descs() == resolved_all(old(self).descs()),
            r == match first_missing(old(self).descs()) {
                Some(i) => Err(ParseError::MissingRequiredArgument(i as usize)),
                None => Ok::<(), ParseError>(()),
            },
    {
        let ghost d0 = self.descs();
        let mut first: Option<usize> = None;
        let mut i: usize = 0;
        while i < self.args.len()
            invariant
                i <= self.args@.len(),
                self.args@.len() == d0.len(),
                self.wf(),
                self.key_table() == old(self).key_table(),
                forall|j: int| 0 <= j < i ==> self.descs()[j] == resolved_arg(d0[j]),
                forall|j: int| i <= j < d0.len() ==> self.descs()[j] == d0[j],
                match first_missing(d0.subrange(0, i as int)) {
                    Some(n) => n < i && first == Some(n as usize),
                    None => first is None,
                },
            decreases self.args@.len() - i,
        {
            assert(d0.subrange(0, i + 1).drop_last() =~= d0.subrange(0, i as int));
            assert(self.descs()[i as int] == d0[i as int]);
            let ghost before = self.descs();
            let res = self.args[i].apply_settings();
            assert(self.descs() =~= before.update(i as int, self.args@[i as int]@));
            if res.is_err() && first.is_none() {
                first = Some(i);
            }
            i = i + 1;
        }
        assert(d0.subrange(0, i as int) =~= d0);
        assert(self.descs() =~= resolved_all(d0));
        match first {
            Some(i) => Err(ParseError::MissingRequiredArgument(i)),
            None => Ok(()),
        }
    }

    /// Scans the tokens and, when that succeeds, resolves every descriptor.
    pub fn parse_tokens(&mut self, tokens: &Vec<String>) -> (r: Result<(), ParseError>)
        requires
            old(self).wf(),
        ensures
            final(self).wf(),
            final(self).key_table() == old(self).key_table(),
            (final(self).descs(), r) == parsed(old(self).key_table(), old(self).descs(), texts(tokens@)),
    {
        match self.scan(tokens) {
            Ok(()) => self.resolve(),
            Err(e) => Err(e),
        }
    }

    /// All boolean values under `key`, in input order.
    pub fn get_bool_multi(&self, key: &str) -> (r: Result<&[bool], ArgError>)
        requires
            self.wf(),
        ensures
            match self.bool_vals(key@) {
                Ok(v) => r is Ok && r->Ok_0@ == v,
                Err(e) => r is Err && r->Err_0 == e,
            },
    {
        let i = match self.find_key(key) {
            Some(i) => i,
            None => {
                return Err(ArgError::WrongKey);
            },
        };
        match &self.args[i] {
            Arg::Bool { vals, .. } => Ok(vals.as_slice()),
            _ => Err(ArgError::WrongType),
        }
    }

    /// All integer values under `key`, in input order.
    pub fn get_int_multi(&self, key: &str) -> (r: Result<&[i32], ArgError>)
        requires
            self.wf(),
        ensures
            match self.int_vals(key@) {
                Ok(v) => r is Ok && r->Ok_0@ == v,
                Err(e) => r is Err && r->Err_0 == e,
            },
    {
        let i = match self.find_key(key) {
            Some(i) => i,
            None => {
                return Err(ArgError::WrongKey);
            },
        };
        match &self.args[i] {
            Arg::Int { vals, .. } => Ok(vals.as_slice()),
            _ => Err(ArgError::WrongType),
        }
    }

    /// All text values under `key`, in input order.
    pub fn get_string_multi(&self, key: &str) -> (r: Result<&[String], ArgError>)
        requires
            self.wf(),
        ensures
            match self.text_vals(key@) {
                Ok(v) => r is Ok && r->Ok_0@.map_values(|s: String| s@) == v,
                Err(e) => r is Err && r->Err_0 == e,
            },
    {
        let i = match self.find_key(key) {
            Some(i) => i,
            None => {
                return Err(ArgError::WrongKey);
            },
        };
        match &self.args[i] {
            Arg::String { vals, .. } => Ok(vals.as_slice()),
            _ => Err(ArgError::WrongType),
        }
    }

    /// The first boolean value under `key`, if any.
    pub fn get_bool(&self, key: &str) -> (r: Result<Option<bool>, ArgError>)
        requires
            self.wf(),
        ensures
            match self.bool_vals(key@) {
                Ok(v) => r == Ok::<Option<bool>, ArgError>(first(v)),
                Err(e) => r == Err::<Option<bool>, ArgError>(e),
            },
    {
        match self.get_bool_multi(key) {
            Ok(vs) => Ok(
                if vs.len() > 0 {
                    Some(vs[0])
                } else {
                    None
                },
            ),
            Err(e) => Err(e),
        }
    }

    /// The first integer value under `key`, if any.
    pub fn get_int(&self, key: &str) -> (r: Result<Option<i32>, ArgError>)
        requires
            self.wf(),
        ensures
            match self.int_vals(key@) {
                Ok(v) => r == Ok::<Option<i32>, ArgError>(first(v)),
                Err(e) => r == Err::<Option<i32>, ArgError>(e),
            },
    {
        match self.get_int_multi(key) {
            Ok(vs) => Ok(
                if vs.len() > 0 {
                    Some(vs[0])
                } else {
                    None
                },
            ),
            Err(e) => Err(e),
        }
    }

    /// The first text value under `key`, if any, as an owned string.
    pub fn get_string(&self, key: &str) -> (r: Result<Option<String>, ArgError>)
        requires
            self.wf(),
        ensures
            match self.text_vals(key@) {
                Ok(v) => r is Ok && opt_view(r->Ok_0) == first(v),
                Err(e) => r is Err && r->Err_0 == e,
            },
    {
        match self.get_string_multi(key) {
            Ok(vs) => Ok(
                if vs.len() > 0 {
                    Some(vs[0].clone())
                } else {
                    None
                },
            ),
            Err(e) => Err(e),
        }
    }

    /// The first text value under `key`, if any, borrowed.
    pub fn get_str(&self, key: &str) -> (r: Result<Option<&str>, ArgError>)
        requires
            self.wf(),
        ensures
            match self.text_vals(key@) {
                Ok(v) => r is Ok && opt_str(r->Ok_0) == first(v),
                Err(e) => r is Err && r->Err_0 == e,
            },
    {
        match self.get_string_multi(key) {
            Ok(vs) => Ok(
                if vs.len() > 0 {
                    Some(vs[0].as_str())
                } else {
                    None
                },
            ),
            Err(e) => Err(e),
        }
    }

    /// The first boolean value under `key`, which must be there.
    pub fn unwrap_bool(&self, key: &str) -> (r: bool)
        requires
            self.wf(),
            self.bool_vals(key@) matches Ok(v) && v.len() > 0,
        ensures
            r == self.bool_vals(key@)->Ok_0[0],
    {
        self.get_bool(key).unwrap().unwrap()
    }

    /// The first integer value under `key`, which must be there.
    pub fn unwrap_int(&self, key: &str) -> (r: i32)
        requires
            self.wf(),
            self.int_vals(key@) matches Ok(v) && v.len() > 0,
        ensures
            r == self.int_vals(key@)->Ok_0[0],
    {
        self.get_int(key).unwrap().unwrap()
    }

    /// The first text value under `key`, which must be there, as an owned string.
    pub fn unwrap_string(&self, key: &str) -> (r: String)
        requires
            self.wf(),
            self.text_vals(key@) matches Ok(v) && v.len() > 0,
        ensures
            r@ == self.text_vals(key@)->Ok_0[0],
    {
        self.get_string(key).unwrap().unwrap()
    }

    /// The first text value under `key`, which must be there, borrowed.
    pub fn unwrap_str(&self, key: &str) -> (r: &str)
        requires
            self.wf(),
            self.text_vals(key@) matches Ok(v) && v.len() > 0,
        ensures
            r@ == self.text_vals(key@)->Ok_0[0],
    {
        self.get_str(key).unwrap().unwrap()
    }

    /// All boolean values under `key`, which must name a boolean descriptor.
    pub fn unwrap_bool_multi(&self, key: &str) -> (r: &[bool])
        requires
            self.wf(),
            self.bool_vals(key@) is Ok,
        ensures
            r@ == self.bool_vals(key@)->Ok_0,
    {
        self.get_bool_multi(key).unwrap()
    }

    /// All integer values under `key`, which must name an integer descriptor.
    pub fn unwrap_int_multi(&self, key: &str) -> (r: &[i32])
        requires
            self.wf(),
            self.int_vals(key@) is Ok,
        ensures
            r@ == self.int_vals(key@)->Ok_0,
    {
        self.get_int_multi(key).unwrap()
    }

    /// All text values under `key`, which must name a text descriptor.
    pub fn unwrap_string_multi(&self, key: &str) -> (r: &[String])
        requires
            self.wf(),
            self.text_vals(key@) is Ok,
        ensures
            r@.map_values(|s: String| s@) == self.text_vals(key@)->Ok_0,
    {
        self.get_string_multi(key).unwrap()
    }

    /// Parses an argument line: its whitespace-separated words are the tokens.
    pub fn parse(&mut self, args_line: &str) -> (r: Result<(), ParseError>)
        requires
            old(self).wf(),
        ensures
            final(self).wf(),
            final(self).key_table() == old(self).key_table(),
            (final(self).descs(), r) == parsed(old(self).key_table(), old(self).descs(), words(args_line@)),
    {
        let tokens = split_words(args_line);
        self.parse_tokens(&tokens)
    }
}

} // verus!
