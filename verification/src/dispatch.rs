//! Turning an inbound channel message into a routing decision.
//!
//! A message is split on whitespace: the first token is the command, the
//! rest, trimmed, is the argument text. Only the weather command is
//! recognized; everything else — and every direct message — is ignored with
//! no reply and no side effect.

use vstd::prelude::*;
use vstd::string::*;
use crate::strutil::str_eq;

verus! {

/// Whitespace as the dispatcher splits messages: the Unicode White_Space
/// code points, the set `str::split_whitespace` splits on.
pub open spec fn is_space(c: char) -> bool {
    let u = c as u32;
    ||| u == 0x20
    ||| (0x09 <= u && u <= 0x0D)
    ||| u == 0x85
    ||| u == 0xA0
    ||| u == 0x1680
    ||| (0x2000 <= u && u <= 0x200A)
    ||| u == 0x2028
    ||| u == 0x2029
    ||| u == 0x202F
    ||| u == 0x205F
    ||| u == 0x3000
}

fn char_is_space(c: char) -> (r: bool)
    ensures
        r == is_space(c),
{
    let u = c as u32;
    u == 0x20 || (0x09 <= u && u <= 0x0D) || u == 0x85 || u == 0xA0 || u == 0x1680 || (0x2000 <= u
        && u <= 0x200A) || u == 0x2028 || u == 0x2029 || u == 0x202F || u == 0x205F || u == 0x3000
}

/// The text with its leading whitespace removed.
pub open spec fn skip_spaces(s: Seq<char>) -> Seq<char>
    decreases s.len(),
{
    if s.len() > 0 && is_space(s[0]) {
        skip_spaces(s.drop_first())
    } else {
        s
    }
}

/// The maximal whitespace-free prefix.
pub open spec fn token_of(s: Seq<char>) -> Seq<char>
    decreases s.len(),
{
    if s.len() > 0 && !is_space(s[0]) {
        seq![s[0]] + token_of(s.drop_first())
    } else {
        Seq::empty()
    }
}

/// What follows the maximal whitespace-free prefix.
pub open spec fn after_token(s: Seq<char>) -> Seq<char>
    decreases s.len(),
{
    if s.len() > 0 && !is_space(s[0]) {
        after_token(s.drop_first())
    } else {
        s
    }
}

/// The text with its trailing whitespace removed.
pub open spec fn trim_trailing(s: Seq<char>) -> Seq<char>
    decreases s.len(),
{
    if s.len() > 0 && is_space(s.last()) {
        trim_trailing(s.drop_last())
    } else {
        s
    }
}

/// The text with whitespace removed at both ends.
pub open spec fn trim_spaces(s: Seq<char>) -> Seq<char> {
    trim_trailing(skip_spaces(s))
}

/// The command token of a message.
pub open spec fn command_of(s: Seq<char>) -> Seq<char> {
    token_of(skip_spaces(s))
}

/// The argument text of a message: what follows the command, trimmed.
pub open spec fn argument_of(s: Seq<char>) -> Seq<char> {
    trim_spaces(after_token(skip_spaces(s)))
}

proof fn lemma_skip_spaces_index(s: Seq<char>, i: int)
    requires
        0 <= i <= s.len(),
        forall|k: int| 0 <= k < i ==> is_space(s[k]),
        i == s.len() || !is_space(s[i]),
    ensures
        skip_spaces(s) == s.skip(i),
    decreases i,
{
    if i == 0 {
        assert(s.skip(0) =~= s);
    } else {
        assert forall|k: int| 0 <= k < i - 1 implies is_space(s.drop_first()[k]) by {
            assert(s.drop_first()[k] == s[k + 1]);
        }
        if i < s.len() {
            assert(s.drop_first()[i - 1] == s[i]);
        }
        lemma_skip_spaces_index(s.drop_first(), i - 1);
        assert(s.drop_first().skip(i - 1) =~= s.skip(i));
    }
}

proof fn lemma_token_index(s: Seq<char>, j: int)
    requires
        0 <= j <= s.len(),
        forall|k: int| 0 <= k < j ==> !is_space(s[k]),
        j == s.len() || is_space(s[j]),
    ensures
        token_of(s) == s.take(j),
        after_token(s) == s.skip(j),
    decreases j,
{
    if j == 0 {
        assert(s.take(0) =~= Seq::<char>::empty());
        assert(s.skip(0) =~= s);
    } else {
        assert forall|k: int| 0 <= k < j - 1 implies !is_space(s.drop_first()[k]) by {
            assert(s.drop_first()[k] == s[k + 1]);
        }
        if j < s.len() {
            assert(s.drop_first()[j - 1] == s[j]);
        }
        lemma_token_index(s.drop_first(), j - 1);
        assert(s.drop_first().take(j - 1) =~= s.take(j).drop_first());
        assert(seq![s[0]] + s.take(j).drop_first() =~= s.take(j));
        assert(s.drop_first().skip(j - 1) =~= s.skip(j));
    }
}

proof fn lemma_trim_trailing_index(s: Seq<char>, b: int)
    requires
        0 <= b <= s.len(),
        forall|k: int| b <= k < s.len() ==> is_space(s[k]),
        b == 0 || !is_space(s[b - 1]),
    ensures
        trim_trailing(s) == s.take(b),
    decreases s.len(),
{
    if b == s.len() {
        if s.len() > 0 {
            assert(!is_space(s.last()));
        }
        assert(s.take(b) =~= s);
    } else {
        assert(is_space(s.last()));
        assert forall|k: int| b <= k < s.drop_last().len() implies is_space(s.drop_last()[k]) by {
            assert(s.drop_last()[k] == s[k]);
        }
        if b > 0 {
            assert(s.drop_last()[b - 1] == s[b - 1]);
        }
        lemma_trim_trailing_index(s.drop_last(), b);
        assert(s.drop_last().take(b) =~= s.take(b));
    }
}

/// What the dispatcher decides for one inbound message.
pub enum Dispatch {
    /// No reply, no side effect: a direct message, an unrecognized command,
    /// or a message with no token at all.
    Ignore,
    /// Run the weather command with this argument text.
    Weather { args: String },
}

/// Decide what to do with one inbound message. `is_direct` says the
/// message was addressed to the bot itself rather than to a channel.
#[verifier::loop_isolation(false)]
pub fn dispatch_message(is_direct: bool, text: &str) -> (r: Dispatch)
    ensures
        is_direct ==> r is Ignore,
        !is_direct ==> match r {
            Dispatch::Ignore => command_of(text@) != "!w"@,
            Dispatch::Weather { args } => command_of(text@) == "!w"@ && args@ == argument_of(
                text@,
            ),
        },
{
    if is_direct {
        return Dispatch::Ignore;
    }
    let n = text.unicode_len();
    let mut i: usize = 0;
    while i < n && char_is_space(text.get_char(i))
        invariant
            0 <= i <= n,
            forall|k: int| 0 <= k < i ==> is_space(text@[k]),
        decreases n - i,
    {
        i = i + 1;
    }
    proof {
        lemma_skip_spaces_index(text@, i as int);
    }
    let mut j = i;
    while j < n && !char_is_space(text.get_char(j))
        invariant
            i <= j <= n,
            forall|k: int| i <= k < j ==> !is_space(text@[k]),
        decreases n - j,
    {
        j = j + 1;
    }
    let ghost suf = text@.skip(i as int);
    proof {
        assert forall|k: int| 0 <= k < j - i implies !is_space(suf[k]) by {
            assert(suf[k] == text@[k + i]);
        }
        if j < n {
            assert(suf[j - i] == text@[j as int]);
        }
        lemma_token_index(suf, j - i);
        assert(suf.take(j - i) =~= text@.subrange(i as int, j as int));
    }
    let command = text.substring_char(i, j);
    if !str_eq(command, "!w") {
        return Dispatch::Ignore;
    }
    // the argument: whatever follows the token, trimmed at both ends
    let mut a = j;
    while a < n && char_is_space(text.get_char(a))
        invariant
            j <= a <= n,
            forall|k: int| j <= k < a ==> is_space(text@[k]),
        decreases n - a,
    {
        a = a + 1;
    }
    let mut b = n;
    while b > a && char_is_space(text.get_char(b - 1))
        invariant
            a <= b <= n,
            forall|k: int| b <= k < n ==> is_space(text@[k]),
        decreases b,
    {
        b = b - 1;
    }
    let ghost rest = text@.skip(j as int);
    proof {
        assert(after_token(suf) =~= rest);
        assert forall|k: int| 0 <= k < a - j implies is_space(rest[k]) by {
            assert(rest[k] == text@[k + j]);
        }
        if a < n {
            assert(rest[a - j] == text@[a as int]);
        }
        lemma_skip_spaces_index(rest, a - j);
        let mid = text@.skip(a as int);
        assert(rest.skip(a - j) =~= mid);
        assert forall|k: int| b - a <= k < mid.len() implies is_space(mid[k]) by {
            assert(mid[k] == text@[k + a]);
        }
        if b > a {
            assert(mid[b - a - 1] == text@[b - 1]);
        }
        lemma_trim_trailing_index(mid, b - a);
        assert(mid.take(b - a) =~= text@.subrange(a as int, b as int));
    }
    let args = text.substring_char(a, b);
    Dispatch::Weather { args: args.to_owned() }
}

} // verus!
