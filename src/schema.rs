use vstd::prelude::*;

use crate::args::{Arg, ArgModel, ArgSettings, SettingsModel};
use crate::text::{
    bool_literal, chars_of, find, find_char, int_literal, parse_bool, parse_int, slice_chars,
    string_of, strip_whitespace, strip_ws,
};

verus! {

/// A declaration string that does not follow the grammar, or whose default
/// does not read as the declared kind.
#[derive(Debug, PartialEq, Eq, Structural)]
pub struct SchemaError;

/// Whether a character is alphabetic or numeric in Unicode's sense.
pub uninterp spec fn alnum(c: char) -> bool;

/// Relies on `char::is_alphanumeric`: true of the characters with the
/// Alphabetic or Numeric property, which include the ASCII letters and digits.
#[verifier::external_body]
fn is_alphanumeric(c: char) -> (r: bool)
    ensures
        r == alnum(c),
        ('a' <= c && c <= 'z') || ('A' <= c && c <= 'Z') || ('0' <= c && c <= '9') ==> r,
{
    c.is_alphanumeric()
}

/// A character that a name may hold: a Unicode letter or digit, `_` or `-`.
pub open spec fn is_name_char(c: char) -> bool {
    ('a' <= c && c <= 'z') || ('A' <= c && c <= 'Z') || ('0' <= c && c <= '9') || alnum(c) || c
        == '_' || c == '-'
}

/// A non-empty run of letters, digits, `_` and `-`.
pub open spec fn is_name(s: Seq<char>) -> bool {
    s.len() > 0 && forall|i: int| 0 <= i < s.len() ==> is_name_char(#[trigger] s[i])
}

/// The long and short names that a name part declares: `--long`, `-short`
/// or `--long/-short`.
pub open spec fn names_of(n: Seq<char>) -> Option<(Option<Seq<char>>, Option<Seq<char>>)> {
    if n.len() >= 2 && n[0] == '-' && n[1] == '-' {
        let body = n.subrange(2, n.len() as int);
        let k = find(body, '/');
        if k < body.len() {
            let l = body.subrange(0, k);
            let sh = body.subrange(k + 1, body.len() as int);
            if is_name(l) && sh.len() >= 2 && sh[0] == '-' && is_name(
                sh.subrange(1, sh.len() as int),
            ) {
                Some((Some(n.subrange(0, k + 2)), Some(sh)))
            } else {
                None
            }
        } else if is_name(body) {
            Some((Some(n), None))
        } else {
            None
        }
    } else if n.len() >= 1 && n[0] == '-' && is_name(n.subrange(1, n.len() as int)) {
        Some((None, Some(n)))
    } else {
        None
    }
}

/// A fresh descriptor of the kind that `code` names (`b`, `i` or `s`), with
/// the default read from `text` when there is one.
pub open spec fn declared(code: char, optional: bool, text: Option<Seq<char>>) -> Option<ArgModel> {
    if code == 'b' {
        match text {
            None => Some(ArgModel::Bool(SettingsModel { vals: seq![], optional, default: None })),
            Some(d) => match bool_literal(d) {
                Some(b) => Some(
                    ArgModel::Bool(SettingsModel { vals: seq![], optional, default: Some(b) }),
                ),
                None => None,
            },
        }
    } else if code == 'i' {
        match text {
            None => Some(ArgModel::Int(SettingsModel { vals: seq![], optional, default: None })),
            Some(d) => match int_literal(d) {
                Some(v) => Some(
                    ArgModel::Int(SettingsModel { vals: seq![], optional, default: Some(v) }),
                ),
                None => None,
            },
        }
    } else if code == 's' {
        Some(ArgModel::Str(SettingsModel { vals: seq![], optional, default: text }))
    } else {
        None
    }
}

/// What follows the `=`: a kind code, an optional `?`, and an optional
/// `::>` with the default's text.
pub open spec fn kind_part(rest: Seq<char>) -> Option<ArgModel> {
    if rest.len() == 0 {
        None
    } else {
        let opt = rest.len() > 1 && rest[1] == '?';
        let tail = rest.subrange(if opt { 2 } else { 1 }, rest.len() as int);
        if tail.len() == 0 {
            declared(rest[0], opt, None)
        } else if tail.len() >= 3 && tail[0] == ':' && tail[1] == ':' && tail[2] == '>' {
            declared(rest[0], opt, Some(tail.subrange(3, tail.len() as int)))
        } else {
            None
        }
    }
}

/// A declaration as mathematics: its long name, its short name and its fresh descriptor.
pub struct Decl {
    pub long: Option<Seq<char>>,
    pub short: Option<Seq<char>>,
    pub arg: ArgModel,
}

/// What a declaration string declares, once its whitespace is taken out:
/// `(--long|-short|--long/-short)=(b|i|s)[?][::>default]`.
pub open spec fn schema_decl(s: Seq<char>) -> Option<Decl> {
    let t = strip_ws(s);
    let e = find(t, '=');
    if e >= t.len() {
        None
    } else {
        match names_of(t.subrange(0, e)) {
            None => None,
            Some(names) => match kind_part(t.subrange(e + 1, t.len() as int)) {
                None => None,
                Some(arg) => Some(Decl { long: names.0, short: names.1, arg }),
            },
        }
    }
}

pub open spec fn opt_view(o: Option<String>) -> Option<Seq<char>> {
    match o {
        Some(s) => Some(s@),
        None => None,
    }
}

/// Whether `t[lo..hi]` is a name.
fn is_name_range(t: &Vec<char>, lo: usize, hi: usize) -> (r: bool)
    requires
        lo <= hi <= t@.len(),
    ensures
        r == is_name(t@.subrange(lo as int, hi as int)),
{
    if lo == hi {
        return false;
    }
    let mut i: usize = lo;
    while i < hi
        invariant
            lo <= i <= hi,
            hi <= t@.len(),
            forall|k: int| lo <= k < i ==> is_name_char(#[trigger] t@[k]),
        decreases hi - i,
    {
        let c = t[i];
        if !(is_alphanumeric(c) || c == '_' || c == '-') {
            assert(t@.subrange(lo as int, hi as int)[i - lo] == c);
            return false;
        }
        i = i + 1;
    }
    assert forall|k: int| 0 <= k < hi - lo implies is_name_char(
        #[trigger] t@.subrange(lo as int, hi as int)[k],
    ) by {
        assert(t@.subrange(lo as int, hi as int)[k] == t@[k + lo]);
    }
    true
}

/// Reads the name part `t[0..e]`.
fn parse_names(t: &Vec<char>, e: usize) -> (r: Option<(Option<String>, Option<String>)>)
    requires
        e <= t@.len(),
    ensures
        match r {
            None => names_of(t@.subrange(0, e as int)) is None,
            Some((l, s)) => names_of(t@.subrange(0, e as int)) == Some((opt_view(l), opt_view(s))),
        },
{
    let ghost n = t@.subrange(0, e as int);
    if e >= 2 && t[0] == '-' && t[1] == '-' {
        let ghost body = n.subrange(2, n.len() as int);
        let k = find_char(t, '/', 2, e);
        assert(t@.subrange(2, e as int) =~= body);
        if k < e {
            assert(body.subrange(0, k - 2) =~= t@.subrange(2, k as int));
            assert(body.subrange(k - 1, body.len() as int) =~= t@.subrange(k + 1, e as int));
            if is_name_range(t, 2, k) && e - k >= 3 && t[k + 1] == '-' && is_name_range(
                t,
                k + 2,
                e,
            ) {
                assert(t@.subrange(k + 1, e as int).subrange(1, (e - k - 1) as int)
                    =~= t@.subrange(k + 2, e as int));
                let l = string_of(&slice_chars(t, 0, k));
                let s = string_of(&slice_chars(t, k + 1, e));
                assert(n.subrange(0, k as int) =~= t@.subrange(0, k as int));
                Some((Some(l), Some(s)))
            } else {
                assert(e - k >= 3 ==> t@.subrange(k + 1, e as int).subrange(1, (e - k - 1) as int)
                    =~= t@.subrange(k + 2, e as int));
                None
            }
        } else if is_name_range(t, 2, e) {
            Some((Some(string_of(&slice_chars(t, 0, e))), None))
        } else {
            None
        }
    } else if e >= 1 && t[0] == '-' && is_name_range(t, 1, e) {
        assert(n.subrange(1, n.len() as int) =~= t@.subrange(1, e as int));
        Some((None, Some(string_of(&slice_chars(t, 0, e)))))
    } else {
        proof {
            if e >= 1 {
                assert(n.subrange(1, n.len() as int) =~= t@.subrange(1, e as int));
            }
        }
        None
    }
}

pub open spec fn opt_chars(o: Option<Vec<char>>) -> Option<Seq<char>> {
    match o {
        Some(v) => Some(v@),
        None => None,
    }
}

/// A fresh descriptor of the kind that `code` names.
fn make_arg(code: char, optional: bool, text: Option<Vec<char>>) -> (r: Option<Arg>)
    ensures
        match r {
            Some(a) => declared(code, optional, opt_chars(text)) == Some(a@),
            None => declared(code, optional, opt_chars(text)) is None,
        },
{
    if code == 'b' {
        let default_val = match text {
            None => None,
            Some(d) => match parse_bool(&d) {
                Some(b) => Some(b),
                None => {
                    return None;
                },
            },
        };
        Some(Arg::Bool { vals: Vec::new(), settings: ArgSettings { optional, default_val } })
    } else if code == 'i' {
        let default_val = match text {
            None => None,
            Some(d) => match parse_int(&d) {
                Some(v) => Some(v),
                None => {
                    return None;
                },
            },
        };
        Some(Arg::Int { vals: Vec::new(), settings: ArgSettings { optional, default_val } })
    } else if code == 's' {
        let default_val = match text {
            None => None,
            Some(d) => Some(string_of(&d)),
        };
        let a = Arg::String { vals: Vec::new(), settings: ArgSettings { optional, default_val } };
        assert(a@ matches ArgModel::Str(m) && m.vals =~= seq![]);
        Some(a)
    } else {
        None
    }
}

/// Compiles one declaration string into its long name, its short name and a
/// fresh descriptor; whitespace anywhere in the string is ignored.
pub fn parse_schema(schema: &str) -> (r: Result<(Option<String>, Option<String>, Arg), SchemaError>)
    ensures
        match r {
            Err(_) => schema_decl(schema@) is None,
            Ok((l, s, a)) => schema_decl(schema@) == Some(
                Decl { long: opt_view(l), short: opt_view(s), arg: a@ },
            ),
        },
{
    let raw = chars_of(schema);
    let t = strip_whitespace(&raw);
    let n = t.len();
    let e = find_char(&t, '=', 0, n);
    assert(t@.subrange(0, n as int) =~= t@);
    if e >= n {
        return Err(SchemaError);
    }
    let names = match parse_names(&t, e) {
        Some(names) => names,
        None => {
            return Err(SchemaError);
        },
    };
    let ghost rest = t@.subrange(e + 1, n as int);
    if e + 1 >= n {
        return Err(SchemaError);
    }
    let code = t[e + 1];
    let opt = e + 2 < n && t[e + 2] == '?';
    let ts: usize = if opt { e + 3 } else { e + 2 };
    assert(rest.subrange(ts - e - 1, rest.len() as int) =~= t@.subrange(ts as int, n as int));
    let text = if ts == n {
        None
    } else if n - ts >= 3 && t[ts] == ':' && t[ts + 1] == ':' && t[ts + 2] == '>' {
        let d = slice_chars(&t, ts + 3, n);
        assert(t@.subrange(ts as int, n as int).subrange(3, (n - ts) as int) =~= d@);
        Some(d)
    } else {
        return Err(SchemaError);
    };
    match make_arg(code, opt, text) {
        Some(a) => Ok((names.0, names.1, a)),
        None => Err(SchemaError),
    }
}

} // verus!
