use vstd::prelude::*;

use crate::args::{
    first_missing, is_long_key, is_short_key, lookup, missing_arg, parsed, resolved_arg, scan_all,
    step, with_presence, with_value, ArgModel, CliArgs, ParseError, ScanState, SettingsModel,
};

verus! {

/// `b` is `a` with zero or more values added after the ones `a` holds, with
/// the same kind and settings.
pub open spec fn extends(a: ArgModel, b: ArgModel) -> bool {
    match (a, b) {
        (ArgModel::Bool(x), ArgModel::Bool(y)) => same_prefix(x, y),
        (ArgModel::Int(x), ArgModel::Int(y)) => same_prefix(x, y),
        (ArgModel::Str(x), ArgModel::Str(y)) => same_prefix(x, y),
        _ => false,
    }
}

pub open spec fn same_prefix<V>(x: SettingsModel<V>, y: SettingsModel<V>) -> bool {
    &&& x.optional == y.optional
    &&& x.default == y.default
    &&& x.vals.len() <= y.vals.len()
    &&& y.vals.subrange(0, x.vals.len() as int) == x.vals
}

pub open spec fn all_extend(d1: Seq<ArgModel>, d2: Seq<ArgModel>) -> bool {
    d1.len() == d2.len() && forall|i: int| 0 <= i < d1.len() ==> extends(#[trigger] d1[i], d2[i])
}

/// Every name maps to one of `n` descriptors.
pub open spec fn keys_in(keys: Seq<(String, usize)>, n: nat) -> bool {
    forall|j: int| 0 <= j < keys.len() ==> (#[trigger] keys[j]).1 < n
}

proof fn lemma_prefix_refl<V>(x: SettingsModel<V>)
    ensures
        same_prefix(x, x),
{
    assert(x.vals.subrange(0, x.vals.len() as int) =~= x.vals);
}

proof fn lemma_prefix_push<V>(x: SettingsModel<V>, v: V)
    ensures
        same_prefix(x, SettingsModel { vals: x.vals.push(v), ..x }),
{
    assert(x.vals.push(v).subrange(0, x.vals.len() as int) =~= x.vals);
}

proof fn lemma_prefix_trans<V>(x: SettingsModel<V>, y: SettingsModel<V>, z: SettingsModel<V>)
    requires
        same_prefix(x, y),
        same_prefix(y, z),
    ensures
        same_prefix(x, z),
{
    assert(z.vals.subrange(0, x.vals.len() as int) =~= z.vals.subrange(
        0,
        y.vals.len() as int,
    ).subrange(0, x.vals.len() as int));
}

proof fn lemma_extends_refl(a: ArgModel)
    ensures
        extends(a, a),
{
    match a {
        ArgModel::Bool(m) => lemma_prefix_refl(m),
        ArgModel::Int(m) => lemma_prefix_refl(m),
        ArgModel::Str(m) => lemma_prefix_refl(m),
    }
}

proof fn lemma_extends_trans(a: ArgModel, b: ArgModel, c: ArgModel)
    requires
        extends(a, b),
        extends(b, c),
    ensures
        extends(a, c),
{
    match (a, b, c) {
        (ArgModel::Bool(x), ArgModel::Bool(y), ArgModel::Bool(z)) => lemma_prefix_trans(x, y, z),
        (ArgModel::Int(x), ArgModel::Int(y), ArgModel::Int(z)) => lemma_prefix_trans(x, y, z),
        (ArgModel::Str(x), ArgModel::Str(y), ArgModel::Str(z)) => lemma_prefix_trans(x, y, z),
        _ => {},
    }
}

proof fn lemma_extends_value(a: ArgModel, text: Seq<char>)
    ensures
        extends(a, with_presence(a)),
        with_value(a, text) matches Ok(b) ==> extends(a, b),
{
    match a {
        ArgModel::Bool(m) => {
            lemma_prefix_push(m, true);
        },
        ArgModel::Int(m) => {
            lemma_prefix_refl(m);
            if let Ok(ArgModel::Int(n)) = with_value(a, text) {
                lemma_prefix_push(m, n.vals.last());
                assert(n.vals =~= m.vals.push(n.vals.last()));
            }
        },
        ArgModel::Str(m) => {
            lemma_prefix_refl(m);
            lemma_prefix_push(m, text);
        },
    }
}

proof fn lemma_all_extend_refl(d: Seq<ArgModel>)
    ensures
        all_extend(d, d),
{
    assert forall|i: int| 0 <= i < d.len() implies extends(#[trigger] d[i], d[i]) by {
        lemma_extends_refl(d[i]);
    }
}

proof fn lemma_step_extends(keys: Seq<(String, usize)>, st: ScanState, tok: Seq<char>)
    requires
        keys_in(keys, st.descs.len()),
        st.awaiting matches Some(i) ==> i < st.descs.len(),
    ensures
        all_extend(st.descs, step(keys, st, tok).descs),
        step(keys, st, tok).awaiting matches Some(i) ==> i < st.descs.len(),
{
    let s2 = step(keys, st, tok);
    crate::args::lemma_lookup_bound(keys, tok, st.descs.len());
    crate::args::lemma_lookup_bound(
        keys,
        tok.subrange(0, crate::text::find(tok, '=')),
        st.descs.len(),
    );
    assert forall|i: int| 0 <= i < st.descs.len() implies extends(
        #[trigger] st.descs[i],
        s2.descs[i],
    ) by {
        lemma_extends_refl(st.descs[i]);
        lemma_extends_value(st.descs[i], tok);
        if crate::text::find(tok, '=') < tok.len() {
            lemma_extends_value(
                st.descs[i],
                tok.subrange(crate::text::find(tok, '=') + 1, tok.len() as int),
            );
        } else {
            lemma_extends_value(st.descs[i], seq![]);
        }
    }
}

proof fn lemma_scan_bound(keys: Seq<(String, usize)>, descs: Seq<ArgModel>, toks: Seq<Seq<char>>)
    requires
        keys_in(keys, descs.len()),
    ensures
        all_extend(descs, scan_all(keys, descs, toks).descs),
        scan_all(keys, descs, toks).awaiting matches Some(i) ==> i < descs.len(),
    decreases toks.len(),
{
    if toks.len() == 0 {
        lemma_all_extend_refl(descs);
    } else {
        lemma_scan_bound(keys, descs, toks.drop_last());
        let prev = scan_all(keys, descs, toks.drop_last());
        if prev.error is None {
            lemma_step_extends(keys, prev, toks.last());
            let d2 = scan_all(keys, descs, toks).descs;
            assert forall|i: int| 0 <= i < descs.len() implies extends(#[trigger] descs[i], d2[i]) by {
                lemma_extends_trans(descs[i], prev.descs[i], d2[i]);
            }
        }
    }
}

/// Values are only ever added, in input order: after more tokens each
/// descriptor holds the values it held after fewer, in the same order,
/// followed by any new ones, with its kind and settings unchanged.
pub proof fn law_values_keep_input_order(
    keys: Seq<(String, usize)>,
    descs: Seq<ArgModel>,
    toks: Seq<Seq<char>>,
    j: int,
)
    requires
        keys_in(keys, descs.len()),
        0 <= j <= toks.len(),
    ensures
        all_extend(
            scan_all(keys, descs, toks.subrange(0, j)).descs,
            scan_all(keys, descs, toks).descs,
        ),
    decreases toks.len(),
{
    if j == toks.len() {
        assert(toks.subrange(0, j) =~= toks);
        lemma_all_extend_refl(scan_all(keys, descs, toks).descs);
    } else {
        assert(toks.drop_last().subrange(0, j) =~= toks.subrange(0, j));
        law_values_keep_input_order(keys, descs, toks.drop_last(), j);
        lemma_scan_bound(keys, descs, toks.drop_last());
        let d1 = scan_all(keys, descs, toks.subrange(0, j)).descs;
        let prev = scan_all(keys, descs, toks.drop_last());
        let d2 = scan_all(keys, descs, toks).descs;
        if prev.error is None {
            lemma_step_extends(keys, prev, toks.last());
            assert forall|i: int| 0 <= i < d1.len() implies extends(#[trigger] d1[i], d2[i]) by {
                lemma_extends_trans(d1[i], prev.descs[i], d2[i]);
            }
        }
    }
}

/// Whether `tok` is a key that finds descriptor `i`.
pub open spec fn names(keys: Seq<(String, usize)>, tok: Seq<char>, i: usize) -> bool {
    if is_long_key(tok) {
        lookup(keys, tok.subrange(0, crate::text::find(tok, '='))) == Some(i)
    } else if is_short_key(tok) {
        lookup(keys, tok) == Some(i)
    } else {
        false
    }
}

/// No token of `toks` is a key that finds descriptor `i`.
pub open spec fn never_named(keys: Seq<(String, usize)>, toks: Seq<Seq<char>>, i: usize) -> bool {
    forall|j: int| 0 <= j < toks.len() ==> !names(keys, #[trigger] toks[j], i)
}

/// A descriptor that no token names is left as it was, and never awaits a value.
pub proof fn lemma_unnamed_untouched(
    keys: Seq<(String, usize)>,
    descs: Seq<ArgModel>,
    toks: Seq<Seq<char>>,
    i: usize,
)
    requires
        keys_in(keys, descs.len()),
        i < descs.len(),
        never_named(keys, toks, i),
    ensures
        scan_all(keys, descs, toks).descs[i as int] == descs[i as int],
        scan_all(keys, descs, toks).awaiting != Some(i),
    decreases toks.len(),
{
    if toks.len() > 0 {
        assert forall|j: int| 0 <= j < toks.drop_last().len() implies !names(
            keys,
            #[trigger] toks.drop_last()[j],
            i,
        ) by {
            assert(toks.drop_last()[j] == toks[j]);
        }
        lemma_unnamed_untouched(keys, descs, toks.drop_last(), i);
        lemma_scan_bound(keys, descs, toks.drop_last());
        let tok = toks.last();
        assert(!names(keys, toks[toks.len() - 1], i));
        let prev = scan_all(keys, descs, toks.drop_last());
        if prev.error is None {
            let s2 = step(keys, prev, tok);
            if is_long_key(tok) {
                let key = tok.subrange(0, crate::text::find(tok, '='));
                crate::args::lemma_lookup_bound(keys, key, descs.len());
                if let Some(k) = lookup(keys, key) {
                    assert(k != i);
                    assert(s2.descs[i as int] == prev.descs[i as int]);
                }
            } else if is_short_key(tok) {
                crate::args::lemma_lookup_bound(keys, tok, descs.len());
                if let Some(k) = lookup(keys, tok) {
                    assert(k != i);
                    assert(s2.descs[i as int] == prev.descs[i as int]);
                }
            } else {
                if let Some(k) = prev.awaiting {
                    assert(k != i);
                    assert(s2.descs[i as int] == prev.descs[i as int]);
                }
            }
        }
    }
}

proof fn lemma_first_missing(d: Seq<ArgModel>, i: int)
    ensures
        first_missing(d) matches Some(j) ==> j < d.len() && missing_arg(d[j as int]),
        0 <= i < d.len() && missing_arg(d[i]) ==> (first_missing(d) matches Some(j) && j <= i),
    decreases d.len(),
{
    if d.len() > 0 {
        lemma_first_missing(d.drop_last(), i);
        if let Some(j) = first_missing(d.drop_last()) {
            assert(d.drop_last()[j as int] == d[j as int]);
        }
        if 0 <= i < d.len() - 1 {
            assert(d.drop_last()[i] == d[i]);
        }
    }
}

/// After a successful scan, a descriptor that is optional, has no default and
/// that no token names still holds no value (its accessor yields an empty
/// list of its kind, not an error), and resolution never reports it missing.
pub proof fn law_optional_without_default_reads_empty(
    before: CliArgs,
    after: CliArgs,
    toks: Seq<Seq<char>>,
    k: Seq<char>,
    r: Result<(), ParseError>,
)
    requires
        before.wf(),
        after.key_table() == before.key_table(),
        (after.descs(), r) == parsed(before.key_table(), before.descs(), toks),
        scan_all(before.key_table(), before.descs(), toks).error is None,
        before.index_of(k) matches Some(i) && never_named(before.key_table(), toks, i) && ({
            let a = before.descs()[i as int];
            a.count() == 0 && a.is_optional() && !a.has_default()
        }),
    ensures
        after.arg_at(k) matches Ok(a) && a.count() == 0 && a == before.descs()[before.index_of(
            k,
        )->0 as int],
        r != Err::<(), ParseError>(ParseError::MissingRequiredArgument(before.index_of(k)->0)),
{
    let i = before.index_of(k)->0;
    before.lemma_wf_keys();
    before.lemma_index_bound(k);
    let st = scan_all(before.key_table(), before.descs(), toks);
    lemma_scan_bound(before.key_table(), before.descs(), toks);
    lemma_unnamed_untouched(before.key_table(), before.descs(), toks, i);
    lemma_first_missing(st.descs, i as int);
    assert(resolved_arg(st.descs[i as int]) == st.descs[i as int]);
}

/// After a successful scan, a descriptor that has a default, holds no value
/// and that no token names holds exactly its default, whether or not it was declared
/// optional.
pub proof fn law_default_fills_absent_value(
    before: CliArgs,
    after: CliArgs,
    toks: Seq<Seq<char>>,
    k: Seq<char>,
    r: Result<(), ParseError>,
)
    requires
        before.wf(),
        after.key_table() == before.key_table(),
        (after.descs(), r) == parsed(before.key_table(), before.descs(), toks),
        scan_all(before.key_table(), before.descs(), toks).error is None,
        before.index_of(k) matches Some(i) && never_named(before.key_table(), toks, i) && ({
            let a = before.descs()[i as int];
            a.count() == 0 && a.has_default()
        }),
    ensures
        after.arg_at(k) matches Ok(a) && a.holds_default(),
{
    let i = before.index_of(k)->0;
    before.lemma_wf_keys();
    before.lemma_index_bound(k);
    let st = scan_all(before.key_table(), before.descs(), toks);
    lemma_scan_bound(before.key_table(), before.descs(), toks);
    lemma_unnamed_untouched(before.key_table(), before.descs(), toks, i);
    let a = st.descs[i as int];
    match a {
        ArgModel::Bool(m) => assert(resolved_arg(a) matches ArgModel::Bool(n) && n.vals =~= seq![m.default->0]),
        ArgModel::Int(m) => assert(resolved_arg(a) matches ArgModel::Int(n) && n.vals =~= seq![m.default->0]),
        ArgModel::Str(m) => assert(resolved_arg(a) matches ArgModel::Str(n) && n.vals =~= seq![m.default->0]),
    }
}

/// After a successful scan, a required descriptor without default that
/// holds no value and that no token names makes parsing fail with a missing required
/// argument: itself, or an earlier descriptor that is missing too.
pub proof fn law_required_without_default_fails(
    before: CliArgs,
    after: CliArgs,
    toks: Seq<Seq<char>>,
    k: Seq<char>,
    r: Result<(), ParseError>,
)
    requires
        before.wf(),
        after.key_table() == before.key_table(),
        (after.descs(), r) == parsed(before.key_table(), before.descs(), toks),
        scan_all(before.key_table(), before.descs(), toks).error is None,
        before.index_of(k) matches Some(i) && never_named(before.key_table(), toks, i) && ({
            let a = before.descs()[i as int];
            a.count() == 0 && !a.is_optional() && !a.has_default()
        }),
    ensures
        r matches Err(ParseError::MissingRequiredArgument(j)) && j <= before.index_of(k)->0,
{
    let i = before.index_of(k)->0;
    before.lemma_wf_keys();
    before.lemma_index_bound(k);
    let st = scan_all(before.key_table(), before.descs(), toks);
    lemma_scan_bound(before.key_table(), before.descs(), toks);
    lemma_unnamed_untouched(before.key_table(), before.descs(), toks, i);
    lemma_first_missing(st.descs, i as int);
}

/// A short key naming a non-boolean descriptor, followed by a bare value,
/// appends exactly that value, read as the descriptor's kind, after the values
/// it held; nothing else changes and no key awaits a value afterwards.
pub proof fn law_short_key_appends_value(
    keys: Seq<(String, usize)>,
    st: ScanState,
    key: Seq<char>,
    val: Seq<char>,
)
    requires
        st.error is None,
        is_short_key(key),
        !is_short_key(val) && !is_long_key(val),
        lookup(keys, key) matches Some(i) && !(st.descs[i as int] is Bool)
            && with_value(st.descs[i as int], val) is Ok,
    ensures
        step(keys, step(keys, st, key), val) == (ScanState {
            descs: st.descs.update(
                lookup(keys, key)->0 as int,
                with_value(st.descs[lookup(keys, key)->0 as int], val)->Ok_0,
            ),
            awaiting: None,
            error: None,
        }),
{
}

/// A long key `--name=value` naming a non-boolean descriptor appends exactly
/// that value, read as the descriptor's kind, after the values it held;
/// nothing else changes.
pub proof fn law_long_key_appends_value(
    keys: Seq<(String, usize)>,
    st: ScanState,
    tok: Seq<char>,
)
    requires
        st.error is None,
        is_long_key(tok),
        crate::text::find(tok, '=') < tok.len(),
        ({
            let e = crate::text::find(tok, '=');
            lookup(keys, tok.subrange(0, e)) matches Some(i) && !(st.descs[i as int] is Bool)
                && with_value(st.descs[i as int], tok.subrange(e + 1, tok.len() as int)) is Ok
        }),
    ensures
        ({
            let e = crate::text::find(tok, '=');
            let i = lookup(keys, tok.subrange(0, e))->0;
            step(keys, st, tok) == (ScanState {
                descs: st.descs.update(
                    i as int,
                    with_value(st.descs[i as int], tok.subrange(e + 1, tok.len() as int))->Ok_0,
                ),
                awaiting: st.awaiting,
                error: None,
            })
        }),
{
}

} // verus!
