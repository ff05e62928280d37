//! The library's view of a provider's JSON reply.
//!
//! A reply is tokenized by an outside JSON parser and handed over as a
//! [`JsonValue`] tree that the interpreter can walk under contracts. A
//! number keeps the decimal text the tokenizer rendered for it, so that the
//! library's own verified decimal reader gives it a value.

use vstd::prelude::*;
use vstd::string::*;
use crate::strutil::str_eq;
use crate::num::Fixed;
use crate::num::parse_fixed;
use crate::num::spec_parse_fixed;
use crate::num::fixed_wf;
use rustc_serialize::json::Json;

verus! {

/// A parsed JSON document.
#[derive(Debug)]
pub enum JsonValue {
    Null,
    Bool(bool),
    Num(String),
    Str(String),
    Arr(Vec<JsonValue>),
    Obj(Vec<(String, JsonValue)>),
}

/// The first entry under `key`, if any.
pub open spec fn obj_lookup(entries: Seq<(String, JsonValue)>, key: Seq<char>) -> Option<
    JsonValue,
>
    decreases entries.len(),
{
    if entries.len() == 0 {
        None
    } else if entries[0].0@ == key {
        Some(entries[0].1)
    } else {
        obj_lookup(entries.drop_first(), key)
    }
}

/// Defensive field lookup: a value under `key`, only on an object that has it.
pub open spec fn spec_find(j: JsonValue, key: Seq<char>) -> Option<JsonValue> {
    match j {
        JsonValue::Obj(es) => obj_lookup(es@, key),
        _ => None,
    }
}

pub open spec fn spec_as_string(j: JsonValue) -> Option<Seq<char>> {
    match j {
        JsonValue::Str(s) => Some(s@),
        _ => None,
    }
}

pub open spec fn spec_as_array(j: JsonValue) -> Option<Seq<JsonValue>> {
    match j {
        JsonValue::Arr(a) => Some(a@),
        _ => None,
    }
}

/// A number's micro-units, only on a numeric node with readable text.
pub open spec fn spec_as_number(j: JsonValue) -> Option<int> {
    match j {
        JsonValue::Num(t) => spec_parse_fixed(t@),
        _ => None,
    }
}

proof fn lemma_obj_lookup_skip(es: Seq<(String, JsonValue)>, key: Seq<char>, i: int)
    requires
        0 <= i <= es.len(),
        forall|k: int| 0 <= k < i ==> es[k].0@ != key,
    ensures
        obj_lookup(es, key) == obj_lookup(es.skip(i), key),
    decreases i,
{
    if i == 0 {
        assert(es.skip(0) =~= es);
    } else {
        assert forall|k: int| 0 <= k < i - 1 implies es.drop_first()[k].0@ != key by {
            assert(es.drop_first()[k] == es[k + 1]);
        }
        lemma_obj_lookup_skip(es.drop_first(), key, i - 1);
        assert(es.drop_first().skip(i - 1) =~= es.skip(i));
    }
}

impl JsonValue {
    /// The value under `key`, where `self` is an object that has the key.
    #[verifier::loop_isolation(false)]
    pub fn find<'a>(&'a self, key: &str) -> (r: Option<&'a JsonValue>)
        ensures
            match r {
                Some(v) => spec_find(*self, key@) == Some(*v),
                None => spec_find(*self, key@) is None,
            },
    {
        match self {
            JsonValue::Obj(es) => {
                let n = es.len();
                let mut i: usize = 0;
                while i < n
                    invariant
                        0 <= i <= n,
                        forall|k: int| 0 <= k < i ==> es@[k].0@ != key@,
                    decreases n - i,
                {
                    let entry = &es[i];
                    if str_eq(entry.0.as_str(), key) {
                        proof {
                            lemma_obj_lookup_skip(es@, key@, i as int);
                            assert(es@.skip(i as int)[0] == es@[i as int]);
                        }
                        return Some(&entry.1);
                    }
                    i = i + 1;
                }
                proof {
                    lemma_obj_lookup_skip(es@, key@, n as int);
                    assert(es@.skip(n as int).len() == 0);
                }
                None
            },
            _ => None,
        }
    }

    /// The text of a string node.
    pub fn as_string<'a>(&'a self) -> (r: Option<&'a str>)
        ensures
            match r {
                Some(s) => spec_as_string(*self) == Some(s@),
                None => spec_as_string(*self) is None,
            },
    {
        match self {
            JsonValue::Str(s) => Some(s.as_str()),
            _ => None,
        }
    }

    /// The elements of an array node.
    pub fn as_array<'a>(&'a self) -> (r: Option<&'a Vec<JsonValue>>)
        ensures
            match r {
                Some(a) => spec_as_array(*self) == Some(a@),
                None => spec_as_array(*self) is None,
            },
    {
        match self {
            JsonValue::Arr(a) => Some(a),
            _ => None,
        }
    }

    /// The value of a numeric node, in micro-units.
    pub fn as_number(&self) -> (r: Option<Fixed>)
        ensures
            match r {
                Some(f) => spec_as_number(*self) == Some(f.micros as int) && fixed_wf(f),
                None => spec_as_number(*self) is None,
            },
    {
        match self {
            JsonValue::Num(t) => parse_fixed(t.as_str()),
            _ => None,
        }
    }
}

/// An ASCII digit byte.
pub open spec fn is_digit_byte(b: u8) -> bool {
    48 <= b && b <= 57
}

/// Whether the eighteen bytes starting at `i` include a non-digit.
pub open spec fn window_has_nondigit(bs: Seq<u8>, i: int) -> bool {
    exists|k: int| i <= k < i + 18 && !is_digit_byte(#[trigger] bs[k])
}

/// No run of eighteen consecutive digit bytes anywhere.
pub open spec fn digit_runs_short(bs: Seq<u8>) -> bool {
    forall|i: int| 0 <= i && i + 18 <= bs.len() ==> #[trigger] window_has_nondigit(bs, i)
}

/// A body within the JSON tokenizer's limits: at most 65535 bytes — its
/// key bookkeeping holds offsets in sixteen bits — and no run of eighteen
/// digits, so a number's exponent cannot overflow its accumulator. Only
/// such a body may be handed to `parse_json`; the step functions treat
/// everything beyond the limits as malformed.
pub open spec fn tame_json_body(s: &str) -> bool {
    s.spec_bytes().len() <= 65535 && digit_runs_short(s.spec_bytes())
}

/// Test a body against the tokenizer's limits before parsing it.
#[verifier::loop_isolation(false)]
pub fn check_tame_body(body: &str) -> (r: bool)
    ensures
        r == tame_json_body(body),
{
    let bs = body.as_bytes();
    let n = bs.len();
    if n > 65535 {
        return false;
    }
    let mut run: usize = 0;
    let mut i: usize = 0;
    while i < n
        invariant
            0 <= i <= n,
            run <= i,
            run < 18,
            forall|k: int| i - run <= k < i ==> is_digit_byte(bs@[k]),
            i - run > 0 ==> !is_digit_byte(bs@[i - run - 1]),
            forall|j: int| 0 <= j && j + 18 <= i ==> #[trigger] window_has_nondigit(bs@, j),
        decreases n - i,
    {
        if 48 <= bs[i] && bs[i] <= 57 {
            run = run + 1;
            if run == 18 {
                proof {
                    let w = i - 17;
                    assert forall|k: int| w <= k < w + 18 implies is_digit_byte(bs@[k]) by {
                        if k < i {
                        } else {
                            assert(k == i);
                        }
                    }
                    assert(!window_has_nondigit(bs@, w as int));
                    assert(w + 18 <= n);
                    assert(!digit_runs_short(bs@));
                }
                return false;
            }
            proof {
                if i >= 17 {
                    let j = i - 17;
                    // the run ending here is shorter than the window, so
                    // the byte just before it lies inside the window
                    assert(!is_digit_byte(bs@[i - run]));
                    assert(window_has_nondigit(bs@, j as int));
                }
                assert forall|j: int| 0 <= j && j + 18 <= i + 1 implies #[trigger] window_has_nondigit(
                    bs@,
                    j,
                ) by {
                    if j + 18 <= i {
                    } else {
                        assert(j == i + 1 - 18);
                    }
                }
            }
        } else {
            run = 0;
            proof {
                assert forall|j: int| 0 <= j && j + 18 <= i + 1 implies #[trigger] window_has_nondigit(
                    bs@,
                    j,
                ) by {
                    if j + 18 <= i {
                    } else {
                        assert(j == i + 1 - 18);
                        assert(!is_digit_byte(bs@[i as int]));
                    }
                }
            }
        }
        i = i + 1;
    }
    true
}

/// What the JSON tokenizer yields for a body text: a parsed document, or
/// nothing where the text is not well-formed JSON. The same text always
/// yields the same document.
pub uninterp spec fn json_of(s: Seq<char>) -> Option<JsonValue>;

/// Relies on rustc_serialize's `json::Json::from_str`: tokenizes the body
/// text, whose parse is a function of the text alone; a parse error becomes
/// `None`. The `requires` keeps out bodies past the tokenizer's limits —
/// its key bookkeeping truncates offsets to sixteen bits, and a number's
/// exponent digits are accumulated without an overflow check — so that the
/// call returns normally on every admitted body.
#[verifier::external_body]
pub(crate) fn parse_json(body: &str) -> (r: Option<JsonValue>)
    requires
        tame_json_body(body),
    ensures
        r == json_of(body@),
{
    match Json::from_str(body) {
        Ok(j) => Some(of_json(&j)),
        Err(_) => None,
    }
}

/// rustc_serialize's parsed JSON tree, opaque to the library; it only
/// passes between `parse_json` and the conversion step below.
#[verifier::external_type_specification]
#[verifier::external_body]
pub struct ExJson(Json);

/// The conversion step of `parse_json`: relies on rustc_serialize's `Json`
/// shape, one arm per variant, keeping a number as the text its value
/// prints as.
#[verifier::external_body]
fn of_json(j: &Json) -> JsonValue {
    match j {
        Json::Null => JsonValue::Null,
        Json::Boolean(b) => JsonValue::Bool(*b),
        Json::I64(n) => JsonValue::Num(format!("{}", n)),
        Json::U64(n) => JsonValue::Num(format!("{}", n)),
        Json::F64(x) => JsonValue::Num(format!("{}", x)),
        Json::String(s) => JsonValue::Str(s.clone()),
        Json::Array(a) => JsonValue::Arr(a.iter().map(of_json).collect()),
        Json::Object(o) => JsonValue::Obj(o.iter().map(|(k, v)| (k.clone(), of_json(v))).collect()),
    }
}

} // verus!
