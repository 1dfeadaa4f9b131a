//! The value codec: the typed representation of store entries and the
//! decoding / encoding of the device's string micro-encoding.
//!
//! Wire strings are reinterpreted on arrival: `bool:<digit>` becomes a
//! boolean, `enum:<sel>:<k>=<label>:...` becomes an enumeration, any other
//! string containing `:` becomes an ordered pair list, and everything else
//! passes through. Keys containing a name-like segment are never
//! reinterpreted, because user-chosen names may legitimately contain the
//! delimiter.

use vstd::prelude::*;

use crate::text::{
    dec_int_val, i_dec_str, i64_to_string, is_dec_digit, is_i64_str, join_seq, parse_i64,
    split_seq, split_str, str_eq,
};

verus! {

/// An enumerated value: the currently selected entry and the full table of
/// `(entry, label)` definitions, in wire order.
#[derive(Clone, Debug, PartialEq)]
pub struct MEnum {
    pub value: i64,
    pub definitions: Vec<(i64, String)>,
}

/// A typed store entry.
///
/// `Float` carries the decimal text of the number exactly as the wire
/// envelope rendered it: the codec never interprets it numerically, it only
/// passes it through, so the text form is the faithful representation here.
#[derive(Clone, Debug, PartialEq)]
pub enum Value {
    String(String),
    Float(String),
    Int(i64),
    Bool(bool),
    Enum(MEnum),
    Pair(Vec<String>),
}

/// The mathematical shadow of a `Value`.
pub enum ValueView {
    Str(Seq<char>),
    Float(Seq<char>),
    Int(i64),
    Bool(bool),
    Enum(i64, Seq<(i64, Seq<char>)>),
    Pair(Seq<Seq<char>>),
}

impl DeepView for Value {
    type V = ValueView;

    open spec fn deep_view(&self) -> ValueView {
        self.view()
    }
}

impl View for Value {
    type V = ValueView;

    open spec fn view(&self) -> ValueView {
        match self {
            Value::String(s) => ValueView::Str(s@),
            Value::Float(t) => ValueView::Float(t@),
            Value::Int(n) => ValueView::Int(*n),
            Value::Bool(b) => ValueView::Bool(*b),
            Value::Enum(e) => ValueView::Enum(e.value, e.definitions.deep_view()),
            Value::Pair(p) => ValueView::Pair(p.deep_view()),
        }
    }
}

/// Errors from decoding a wire string.
#[derive(Clone, Copy, Debug, PartialEq, Eq, Structural)]
pub enum ValueError {
    /// An integer field of the encoding did not parse.
    UnableToParseInt,
    /// A floating-point field of the encoding did not parse.
    UnableToParseFloat,
    /// There was nothing to decode.
    NoValue,
    /// The encoding is shaped in a way the store never produces.
    WTF,
    /// The selector or an option key of an `enum:` encoding is not an integer.
    ParseIntError,
}

/// A name-like run (`name`, case-insensitive) starting at index `i` of a key.
pub open spec fn name_at(k: Seq<char>, i: int) -> bool {
    &&& 0 <= i
    &&& i + 4 <= k.len()
    &&& (k[i] == 'n' || k[i] == 'N')
    &&& (k[i + 1] == 'a' || k[i + 1] == 'A')
    &&& (k[i + 2] == 'm' || k[i + 2] == 'M')
    &&& (k[i + 3] == 'e' || k[i + 3] == 'E')
}

/// Keys containing a name-like segment are exempt from decoding.
pub open spec fn has_name_segment(k: Seq<char>) -> bool {
    exists|i: int| name_at(k, i)
}

/// Scan a key for a case-insensitive `name` run.
pub fn key_has_name(k: &str) -> (r: bool)
    ensures
        r == has_name_segment(k@),
{
    let len = k.unicode_len();
    if len < 4 {
        return false;
    }
    let mut i: usize = 0;
    while i <= len - 4
        invariant
            len == k@.len(),
            4 <= len,
            i <= len - 3,
            forall|j: int| 0 <= j < i ==> !name_at(k@, j),
        decreases len - i,
    {
        let c0 = k.get_char(i);
        let c1 = k.get_char(i + 1);
        let c2 = k.get_char(i + 2);
        let c3 = k.get_char(i + 3);
        if (c0 == 'n' || c0 == 'N') && (c1 == 'a' || c1 == 'A') && (c2 == 'm' || c2 == 'M') && (c3
            == 'e' || c3 == 'E') {
            proof {
                assert(name_at(k@, i as int));
            }
            return true;
        }
        i += 1;
    }
    proof {
        assert forall|j: int| !name_at(k@, j) by {
            if 0 <= j && j + 4 <= len {
                assert(!name_at(k@, j));
            }
        }
    }
    false
}

/// The exact shape `bool:<digit>`.
pub open spec fn is_bool_literal(s: Seq<char>) -> bool {
    &&& s.len() == 6
    &&& s[0] == 'b'
    &&& s[1] == 'o'
    &&& s[2] == 'o'
    &&& s[3] == 'l'
    &&& s[4] == ':'
    &&& is_dec_digit(s[5])
}

/// `bool:1` is true; any other digit is false.
pub open spec fn bool_literal_val(s: Seq<char>) -> bool {
    s[5] == '1'
}

fn check_bool_literal(s: &str) -> (r: bool)
    ensures
        r == is_bool_literal(s@),
{
    if s.unicode_len() != 6 {
        return false;
    }
    let c5 = s.get_char(5);
    s.get_char(0) == 'b' && s.get_char(1) == 'o' && s.get_char(2) == 'o' && s.get_char(3) == 'l'
        && s.get_char(4) == ':' && '0' <= c5 && c5 <= '9'
}

/// The literal first segment that announces an enumeration.
pub open spec fn enum_tag() -> Seq<char> {
    seq!['e', 'n', 'u', 'm']
}

/// One `<int>=<label>` option: the key is everything before the first `=`
/// and must parse as an integer; the label is everything after it.
pub open spec fn spec_enum_option(part: Seq<char>) -> Result<(i64, Seq<char>), ValueError> {
    let kv = split_seq(part, '=');
    if kv.len() < 2 {
        Err(ValueError::NoValue)
    } else if !is_i64_str(kv[0]) {
        Err(ValueError::ParseIntError)
    } else {
        Ok((dec_int_val(kv[0]) as i64, join_seq(kv.subrange(1, kv.len() as int), '=')))
    }
}

/// All options of an `enum:` encoding, or the first malformed one's error.
pub open spec fn spec_enum_options(parts: Seq<Seq<char>>) -> Result<
    Seq<(i64, Seq<char>)>,
    ValueError,
>
    decreases parts.len(),
{
    if parts.len() == 0 {
        Ok(Seq::<(i64, Seq<char>)>::empty())
    } else {
        match spec_enum_option(parts[0]) {
            Err(e) => Err(e),
            Ok(kv) => match spec_enum_options(parts.subrange(1, parts.len() as int)) {
                Err(e) => Err(e),
                Ok(rest) => Ok(seq![kv] + rest),
            },
        }
    }
}

proof fn lemma_options_step(opts: Seq<Seq<char>>, k: int)
    requires
        0 <= k < opts.len(),
    ensures
        spec_enum_options(opts.subrange(k, opts.len() as int)) == match spec_enum_option(
            opts[k],
        ) {
            Err(e) => Err::<Seq<(i64, Seq<char>)>, ValueError>(e),
            Ok(kv) => match spec_enum_options(opts.subrange(k + 1, opts.len() as int)) {
                Err(e) => Err::<Seq<(i64, Seq<char>)>, ValueError>(e),
                Ok(rest) => Ok::<Seq<(i64, Seq<char>)>, ValueError>(seq![kv] + rest),
            },
        },
{
    let rem = opts.subrange(k, opts.len() as int);
    assert(rem[0] == opts[k]);
    assert(rem.subrange(1, rem.len() as int) =~= opts.subrange(k + 1, opts.len() as int));
}

/// What decoding a string-typed raw value yields.
pub open spec fn spec_decode_str(s: Seq<char>, key: Seq<char>) -> Result<ValueView, ValueError> {
    if s.len() == 0 {
        Ok(ValueView::Str(s))
    } else if has_name_segment(key) {
        Ok(ValueView::Str(s))
    } else if is_bool_literal(s) {
        Ok(ValueView::Bool(bool_literal_val(s)))
    } else {
        let parts = split_seq(s, ':');
        if parts[0] == enum_tag() {
            if parts.len() < 2 {
                Err(ValueError::ParseIntError)
            } else if !is_i64_str(parts[1]) {
                Err(ValueError::ParseIntError)
            } else {
                match spec_enum_options(parts.subrange(2, parts.len() as int)) {
                    Err(e) => Err(e),
                    Ok(defs) => Ok(
                        ValueView::Enum(dec_int_val(parts[1]) as i64, defs),
                    ),
                }
            }
        } else if parts.len() > 1 {
            Ok(ValueView::Pair(parts))
        } else {
            Ok(ValueView::Str(s))
        }
    }
}

/// What decoding any raw value yields: only strings are reinterpreted.
pub open spec fn spec_decode(v: ValueView, key: Seq<char>) -> Result<ValueView, ValueError> {
    match v {
        ValueView::Str(s) => spec_decode_str(s, key),
        _ => Ok(v),
    }
}

impl Value {
    /// Decode this raw value as stored under `key`, per the store's string
    /// micro-encoding. Non-string values, empty strings, and values under
    /// name-bearing keys pass through unchanged.
    pub fn decode(self, key: &str) -> (r: Result<Value, ValueError>)
        ensures
            match r {
                Ok(out) => spec_decode(self@, key@) == Ok::<ValueView, ValueError>(out@),
                Err(e) => spec_decode(self@, key@) == Err::<ValueView, ValueError>(e),
            },
    {
        let ghost whole = self;
        let s = match self {
            Value::String(s) => s,
            other => {
                return Ok(other);
            },
        };
        proof {
            assert(whole@ == ValueView::Str(s@));
        }
        if s.as_str().unicode_len() == 0 {
            return Ok(Value::String(s));
        }
        if key_has_name(key) {
            return Ok(Value::String(s));
        }
        if check_bool_literal(s.as_str()) {
            let b = s.as_str().get_char(5) == '1';
            return Ok(Value::Bool(b));
        }
        let parts = split_str(s.as_str(), ':');
        proof {
            reveal_strlit("enum");
            assert("enum"@ =~= enum_tag());
        }
        if str_eq(parts[0].as_str(), "enum") {
            if parts.len() < 2 {
                return Err(ValueError::ParseIntError);
            }
            let sel = match parse_i64(parts[1].as_str()) {
                Some(v) => v,
                None => {
                    return Err(ValueError::ParseIntError);
                },
            };
            let ghost opts = parts.deep_view().subrange(2, parts.deep_view().len() as int);
            let mut defs: Vec<(i64, String)> = Vec::new();
            let mut i: usize = 2;
            proof {
                assert(opts.subrange(0, 0) =~= Seq::<Seq<char>>::empty());
                assert(parts.deep_view().subrange(2, parts.deep_view().len() as int).subrange(
                    i - 2,
                    opts.len() as int,
                ) =~= opts);
            }
            #[verifier::loop_isolation(false)]
            while i < parts.len()
                invariant
                    2 <= i <= parts.len(),
                    spec_enum_options(opts) == match spec_enum_options(
                        opts.subrange(i - 2, opts.len() as int),
                    ) {
                        Err(e) => Err::<Seq<(i64, Seq<char>)>, ValueError>(e),
                        Ok(rest) => Ok::<Seq<(i64, Seq<char>)>, ValueError>(
                            defs.deep_view() + rest,
                        ),
                    },
                decreases parts.len() - i,
            {
                let ghost old_defs = defs.deep_view();
                proof {
                    lemma_options_step(opts, i - 2);
                    assert(opts[i - 2] == parts.deep_view()[i as int]);
                }
                let kv = split_str(parts[i].as_str(), '=');
                if kv.len() < 2 {
                    proof {
                        assert(spec_enum_option(opts[i - 2]) == Err::<
                            (i64, Seq<char>),
                            ValueError,
                        >(ValueError::NoValue));
                        assert(spec_enum_options(opts) == Err::<
                            Seq<(i64, Seq<char>)>,
                            ValueError,
                        >(ValueError::NoValue));
                        assert(parts.deep_view()[0] == parts@[0]@);
                        assert(parts.deep_view()[1] == parts@[1]@);
                        assert(spec_decode_str(s@, key@) == Err::<ValueView, ValueError>(
                            ValueError::NoValue,
                        ));
                    }
                    return Err(ValueError::NoValue);
                }
                let ev = match parse_i64(kv[0].as_str()) {
                    Some(v) => v,
                    None => {
                        proof {
                            assert(kv.deep_view()[0] == kv@[0]@);
                            assert(spec_enum_option(opts[i - 2]) == Err::<
                                (i64, Seq<char>),
                                ValueError,
                            >(ValueError::ParseIntError));
                            assert(spec_enum_options(opts) == Err::<
                                Seq<(i64, Seq<char>)>,
                                ValueError,
                            >(ValueError::ParseIntError));
                            assert(parts.deep_view()[0] == parts@[0]@);
                            assert(parts.deep_view()[1] == parts@[1]@);
                            assert(spec_decode_str(s@, key@) == Err::<ValueView, ValueError>(
                                ValueError::ParseIntError,
                            ));
                        }
                        return Err(ValueError::ParseIntError);
                    },
                };
                proof {
                    reveal_strlit("=");
                }
                let label = crate::text::join_from(&kv, 1, "=");
                proof {
                    assert(kv.deep_view()[0] == kv@[0]@);
                    assert(spec_enum_option(opts[i - 2]) == Ok::<(i64, Seq<char>), ValueError>(
                        (ev, label@),
                    ));
                }
                defs.push((ev, label));
                proof {
                    assert(defs.deep_view() =~= old_defs + seq![(ev, label@)]);
                    assert(spec_enum_options(opts) == match spec_enum_options(
                        opts.subrange(i + 1 - 2, opts.len() as int),
                    ) {
                        Err(e) => Err::<Seq<(i64, Seq<char>)>, ValueError>(e),
                        Ok(rest) => Ok::<Seq<(i64, Seq<char>)>, ValueError>(
                            defs.deep_view() + rest,
                        ),
                    }) by {
                        let tail = opts.subrange(i + 1 - 2, opts.len() as int);
                        match spec_enum_options(tail) {
                            Err(e) => {},
                            Ok(rest) => {
                                assert((old_defs + (seq![(ev, label@)] + rest)) =~= (old_defs
                                    + seq![(ev, label@)]) + rest);
                            },
                        }
                    }
                }
                i += 1;
            }
            proof {
                assert(opts.subrange(i - 2, opts.len() as int) =~= Seq::<Seq<char>>::empty());
                assert(defs.deep_view() + Seq::<(i64, Seq<char>)>::empty() =~= defs.deep_view());
                assert(spec_enum_options(opts) == Ok::<Seq<(i64, Seq<char>)>, ValueError>(
                    defs.deep_view(),
                ));
            }
            return Ok(Value::Enum(MEnum { value: sel, definitions: defs }));
        }
        if parts.len() > 1 {
            return Ok(Value::Pair(parts));
        }
        Ok(Value::String(s))
    }
}

/// The wire rendering of a boolean.
pub open spec fn spec_bool_str(b: bool) -> Seq<char> {
    seq!['b', 'o', 'o', 'l', ':', if b { '1' } else { '0' }]
}

/// The wire string a value encodes to when sent in a write: the inverse
/// mapping of decoding. Booleans become `bool:1` / `bool:0`, enumerations
/// their selected integer, pairs rejoin with `:`, scalars stringify.
pub open spec fn spec_encode(v: ValueView) -> Seq<char> {
    match v {
        ValueView::Str(s) => s,
        ValueView::Float(t) => t,
        ValueView::Int(n) => i_dec_str(n as int),
        ValueView::Bool(b) => spec_bool_str(b),
        ValueView::Enum(sel, _) => i_dec_str(sel as int),
        ValueView::Pair(p) => join_seq(p, ':'),
    }
}

/// Coercion of a decoded value to an unsigned channel/bank count.
pub open spec fn spec_as_u32(v: ValueView) -> Option<u32> {
    match v {
        ValueView::Int(n) => if 0 <= n && n <= u32::MAX {
            Some(n as u32)
        } else {
            None
        },
        _ => None,
    }
}

/// Coercion of a decoded value to a signed trim level.
pub open spec fn spec_as_i32(v: ValueView) -> Option<i32> {
    match v {
        ValueView::Int(n) => if i32::MIN <= n && n <= i32::MAX {
            Some(n as i32)
        } else {
            None
        },
        _ => None,
    }
}

/// Coercion of a decoded value to a flag: booleans directly, integers by
/// zero / non-zero.
pub open spec fn spec_as_bool(v: ValueView) -> Option<bool> {
    match v {
        ValueView::Bool(b) => Some(b),
        ValueView::Int(n) => Some(n != 0),
        _ => None,
    }
}

/// Coercion of a decoded two-element pair of integers to a trim range.
pub open spec fn spec_as_i32_pair(v: ValueView) -> Option<(i32, i32)> {
    match v {
        ValueView::Pair(p) => if p.len() == 2 && is_i64_str(p[0]) && is_i64_str(p[1])
            && i32::MIN <= dec_int_val(p[0]) && dec_int_val(p[0]) <= i32::MAX
            && i32::MIN <= dec_int_val(p[1]) && dec_int_val(p[1]) <= i32::MAX {
            Some((dec_int_val(p[0]) as i32, dec_int_val(p[1]) as i32))
        } else {
            None
        },
        _ => None,
    }
}

impl Value {
    /// A copy of this value, pinned to denote the same thing.
    pub fn duplicate(&self) -> (r: Value)
        ensures
            r@ == self@,
    {
        match self {
            Value::String(s) => Value::String(s.clone()),
            Value::Float(t) => Value::Float(t.clone()),
            Value::Int(n) => Value::Int(*n),
            Value::Bool(b) => Value::Bool(*b),
            Value::Enum(e) => {
                let mut defs: Vec<(i64, String)> = Vec::new();
                let n = e.definitions.len();
                let mut i: usize = 0;
                proof {
                    assert(defs.deep_view() =~= e.definitions.deep_view().subrange(0, 0));
                }
                #[verifier::loop_isolation(false)]
                while i < n
                    invariant
                        i <= n,
                        n == e.definitions@.len(),
                        defs.deep_view() == e.definitions.deep_view().subrange(0, i as int),
                    decreases n - i,
                {
                    let d = &e.definitions[i];
                    defs.push((d.0, d.1.clone()));
                    proof {
                        let dv = defs.deep_view();
                        assert(dv.len() == i + 1);
                        assert(defs@[i as int] == (d.0, d.1));
                        assert(dv[i as int] == (d.0, d.1@));
                        assert(forall|j: int|
                            0 <= j < i ==> dv[j] == #[trigger] defs@[j].deep_view());
                        assert(dv =~= e.definitions.deep_view().subrange(0, i + 1));
                    }
                    i += 1;
                }
                proof {
                    assert(e.definitions.deep_view().subrange(0, n as int) =~= e.definitions.deep_view());
                }
                Value::Enum(MEnum { value: e.value, definitions: defs })
            },
            Value::Pair(p) => {
                let mut parts: Vec<String> = Vec::new();
                let n = p.len();
                let mut i: usize = 0;
                proof {
                    assert(parts.deep_view() =~= p.deep_view().subrange(0, 0));
                }
                #[verifier::loop_isolation(false)]
                while i < n
                    invariant
                        i <= n,
                        n == p@.len(),
                        parts.deep_view() == p.deep_view().subrange(0, i as int),
                    decreases n - i,
                {
                    parts.push(p[i].clone());
                    proof {
                        let pv = parts.deep_view();
                        assert(pv.len() == i + 1);
                        assert(pv[i as int] == p@[i as int]@);
                        assert(forall|j: int|
                            0 <= j < i ==> pv[j] == #[trigger] parts@[j].deep_view());
                        assert(pv =~= p.deep_view().subrange(0, i + 1));
                    }
                    i += 1;
                }
                proof {
                    assert(p.deep_view().subrange(0, n as int) =~= p.deep_view());
                }
                Value::Pair(parts)
            },
        }
    }

    /// Encode this value as its wire string.
    pub fn encode(&self) -> (r: String)
        ensures
            r@ == spec_encode(self@),
    {
        match self {
            Value::String(s) => s.clone(),
            Value::Float(t) => t.clone(),
            Value::Int(n) => i64_to_string(*n),
            Value::Bool(b) => {
                let r = if *b {
                    "bool:1"
                } else {
                    "bool:0"
                };
                proof {
                    reveal_strlit("bool:1");
                    reveal_strlit("bool:0");
                    assert(r@ =~= spec_bool_str(*b));
                }
                r.to_owned()
            },
            Value::Enum(e) => i64_to_string(e.value),
            Value::Pair(p) => {
                proof {
                    reveal_strlit(":");
                }
                let r = crate::text::join_from(p, 0, ":");
                proof {
                    assert(p.deep_view().subrange(0, p.deep_view().len() as int) =~= p.deep_view());
                }
                r
            },
        }
    }

    /// This value as an unsigned count, when it is an in-range integer.
    pub fn as_u32(&self) -> (r: Option<u32>)
        ensures
            r == spec_as_u32(self@),
    {
        match self {
            Value::Int(n) => {
                if 0 <= *n && *n <= u32::MAX as i64 {
                    Some(*n as u32)
                } else {
                    None
                }
            },
            _ => None,
        }
    }

    /// This value as a signed trim level, when it is an in-range integer.
    pub fn as_i32(&self) -> (r: Option<i32>)
        ensures
            r == spec_as_i32(self@),
    {
        match self {
            Value::Int(n) => {
                if i32::MIN as i64 <= *n && *n <= i32::MAX as i64 {
                    Some(*n as i32)
                } else {
                    None
                }
            },
            _ => None,
        }
    }

    /// This value as a flag: booleans directly, integers by zero / non-zero.
    pub fn as_bool(&self) -> (r: Option<bool>)
        ensures
            r == spec_as_bool(self@),
    {
        match self {
            Value::Bool(b) => Some(*b),
            Value::Int(n) => Some(*n != 0),
            _ => None,
        }
    }

    /// This value as a `(low, high)` trim range, when it is a two-element
    /// pair of in-range integers.
    pub fn as_i32_pair(&self) -> (r: Option<(i32, i32)>)
        ensures
            r == spec_as_i32_pair(self@),
    {
        match self {
            Value::Pair(p) => {
                if p.len() != 2 {
                    return None;
                }
                let a = match parse_i64(p[0].as_str()) {
                    Some(v) => v,
                    None => {
                        return None;
                    },
                };
                let b = match parse_i64(p[1].as_str()) {
                    Some(v) => v,
                    None => {
                        return None;
                    },
                };
                if i32::MIN as i64 <= a && a <= i32::MAX as i64 && i32::MIN as i64 <= b && b
                    <= i32::MAX as i64 {
                    Some((a as i32, b as i32))
                } else {
                    None
                }
            },
            _ => None,
        }
    }
}

/// Raw strings on which decoding is invertible: a `bool:` literal must carry
/// `0` or `1` (any other digit collapses to `bool:0`), and the first segment
/// must not announce an enumeration (an enumeration encodes back to its bare
/// selector, not to its full definition table).
pub open spec fn round_trip_safe(raw: Seq<char>) -> bool {
    &&& (is_bool_literal(raw) ==> (raw[5] == '0' || raw[5] == '1'))
    &&& split_seq(raw, ':')[0] != enum_tag()
}

/// Law: for every raw string under a key without a name-like segment,
/// excluding only the shapes `round_trip_safe` rules out, decoding succeeds
/// and encoding the decoded value reproduces the raw string exactly.
pub proof fn lemma_decode_encode_round_trip(raw: Seq<char>, key: Seq<char>)
    requires
        !has_name_segment(key),
        round_trip_safe(raw),
    ensures
        spec_decode(ValueView::Str(raw), key) is Ok,
        spec_encode(spec_decode(ValueView::Str(raw), key)->Ok_0) == raw,
{
    if raw.len() == 0 {
    } else if is_bool_literal(raw) {
        assert(spec_bool_str(bool_literal_val(raw)) =~= raw);
    } else {
        let parts = split_seq(raw, ':');
        crate::text::lemma_split_len(raw, ':');
        if parts.len() > 1 {
            crate::text::lemma_join_split(raw, ':');
        }
    }
}

} // verus!
